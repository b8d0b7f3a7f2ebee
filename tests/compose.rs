use std::sync::Arc;

use minihttp::error::StatusError;
use minihttp::functional::{handler, middleware, ref_handler, ref_middleware};
use minihttp::handler::{WithState, Wrap};
use minihttp::response::{Json, WithStatus};

#[test]
fn status_error_keeps_status() {
    let e = StatusError::new(hyper::StatusCode::NOT_FOUND);
    assert_eq!(e.status, hyper::StatusCode::NOT_FOUND);
}

#[test]
fn wrap_nests_last_outermost() {
    let w = Wrap::new(Wrap::new("h", "m1"), "m2");
    assert_eq!(*w.middleware(), "m2");
    assert_eq!(*w.handler().middleware(), "m1");
    assert_eq!(*w.handler().handler(), "h");
}

#[test]
fn with_state_keeps_handler_and_state() {
    let s = Arc::new(17u64);
    let w = WithState::new(3u8, s.clone());
    assert_eq!(*w.handler(), 3);
    assert!(Arc::ptr_eq(w.state(), &s));
}

#[test]
fn adapters_keep_their_function() {
    let h = handler(|x: u32| x + 1);
    assert_eq!((h.function())(1), 2);
    let rh = ref_handler::<String, _>(|s: &String| s.len());
    assert_eq!((rh.function())(&"abc".to_string()), 3);
    let m = middleware(|x: u32, y: u32| x * y);
    assert_eq!((m.function())(3, 4), 12);
    let rm = ref_middleware::<u8, _>(|a: &u8, b: u8| *a + b);
    assert_eq!((rm.function())(&2, 3), 5);
}

#[test]
fn with_status_parts() {
    let w = WithStatus::new("body", hyper::StatusCode::CREATED);
    let (r, s) = w.into_parts();
    assert_eq!(r, "body");
    assert_eq!(s, hyper::StatusCode::CREATED);
    let j = Json(vec![1, 2]);
    assert_eq!(j.0, vec![1, 2]);
}
