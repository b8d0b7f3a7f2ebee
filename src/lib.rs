//! A small composable HTTP request-handling core: a path router with
//! captures and tail wildcards, handler and middleware composition nodes,
//! scoped application state and the decisions of the JSON body reader.
use vstd::prelude::*;

pub mod body;
pub mod error;
pub mod functional;
pub mod handler;
pub mod response;
pub mod router;
pub mod state;
pub mod text;

verus! {

} // verus!
