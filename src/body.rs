//! The decisions of the JSON body reader: which content types it accepts,
//! and how it enforces its length limit while the body is buffered.
use vstd::prelude::*;

use crate::text::str_eq;

verus! {

#[verifier::external_type_specification]
#[verifier::external_body]
pub struct ExAnyhowError(anyhow::Error);

/// Why a request body could not be decoded.
#[derive(Debug)]
pub enum BodyError {
    /// The body is longer than the reader's limit.
    LengthLimitExceeded,
    /// The body is not a well-formed payload.
    InvalidFormat { source: anyhow::Error },
    /// The request does not declare a JSON content type.
    ContentTypeMismatch,
}

/// The type and subtype names of the media type `s`, if it parses as one.
pub uninterp spec fn mime_parts_of(s: Seq<char>) -> Option<(Seq<char>, Seq<char>)>;

/// Relies on `mime::Mime`'s `FromStr`, `type_` and `subtype`: the media type
/// that `s` parses to, reduced to its type and subtype names.
#[verifier::external_body]
fn parse_mime(s: &str) -> (r: Option<(String, String)>)
    ensures
        match mime_parts_of(s@) {
            Some(p) => r is Some && r.unwrap().0@ == p.0 && r.unwrap().1@ == p.1,
            None => r is None,
        },
{
    match s.parse::<mime::Mime>() {
        Ok(m) => Some((m.type_().as_str().to_string(), m.subtype().as_str().to_string())),
        Err(_) => None,
    }
}

/// Whether the content type header value `ct` declares `application/json`.
pub open spec fn is_json_type(ct: Option<Seq<char>>) -> bool {
    match ct {
        Some(s) => match mime_parts_of(s) {
            Some(p) => p.0 == "application"@ && p.1 == "json"@,
            None => false,
        },
        None => false,
    }
}

/// Whether the parsed type and subtype names `parts` are `application/json`.
pub fn is_json_parts(parts: &Option<(String, String)>) -> (r: bool)
    ensures
        r == (parts is Some && parts.unwrap().0@ == "application"@ && parts.unwrap().1@ == "json"@),
{
    proof {
        reveal_strlit("application");
        reveal_strlit("json");
    }
    match parts {
        Some((t, sub)) => str_eq(t.as_str(), "application") && str_eq(sub.as_str(), "json"),
        None => false,
    }
}

/// The view of an optional header value.
pub open spec fn opt_view(ct: Option<&str>) -> Option<Seq<char>> {
    match ct {
        Some(s) => Some(s@),
        None => None,
    }
}

/// Whether the content type header value `content_type` declares
/// `application/json`.
pub fn is_json(content_type: Option<&str>) -> (r: bool)
    ensures
        r == is_json_type(opt_view(content_type)),
{
    match content_type {
        Some(s) => is_json_parts(&parse_mime(s)),
        None => false,
    }
}

/// Decodes JSON request bodies up to a length limit.
#[derive(Debug, Clone, Copy)]
pub struct JsonParser {
    length_limit: usize,
}

/// The limit of a parser made with `default`.
pub const DEFAULT_LENGTH_LIMIT: usize = 32768;

impl Default for JsonParser {
    fn default() -> (r: Self)
        ensures
            r.limit() == DEFAULT_LENGTH_LIMIT,
    {
        JsonParser { length_limit: DEFAULT_LENGTH_LIMIT }
    }
}

impl JsonParser {
    /// The largest body, in bytes, the parser accepts.
    pub closed spec fn limit(&self) -> usize {
        self.length_limit
    }

    /// Sets the largest body, in bytes, the parser accepts.
    pub fn length_limit(&mut self, limit: usize)
        ensures
            final(self).limit() == limit,
    {
        self.length_limit = limit;
    }

    /// Starts decoding a body whose content type header is `content_type`:
    /// a reader with nothing read yet, or a content type mismatch.
    pub fn begin(&self, content_type: Option<&str>) -> (r: Result<BodyReader, BodyError>)
        ensures
            is_json_type(opt_view(content_type)) ==> (r matches Ok(b) && b.limit() == self.limit()
                && b.total() == 0),
            !is_json_type(opt_view(content_type)) ==> r matches Err(BodyError::ContentTypeMismatch),
    {
        if !is_json(content_type) {
            return Err(BodyError::ContentTypeMismatch);
        }
        Ok(BodyReader::new(self.length_limit))
    }
}

/// The running length of a body being buffered, against its limit.
#[derive(Debug)]
pub struct BodyReader {
    limit: usize,
    total: usize,
}

/// The total after chunks of lengths `lens` are read from `total` under
/// `limit`, or `None` once a chunk would pass the limit.
pub open spec fn read_from(limit: int, total: int, lens: Seq<int>) -> Option<int>
    decreases lens.len(),
{
    if lens.len() == 0 {
        Some(total)
    } else if total + lens[0] > limit {
        None
    } else {
        read_from(limit, total + lens[0], lens.drop_first())
    }
}

/// The sum of `lens`.
pub open spec fn sum(lens: Seq<int>) -> int
    decreases lens.len(),
{
    if lens.len() == 0 {
        0
    } else {
        lens[0] + sum(lens.drop_first())
    }
}

impl BodyReader {
    pub closed spec fn limit(&self) -> usize {
        self.limit
    }

    pub closed spec fn total(&self) -> usize {
        self.total
    }

    /// A reader with nothing read yet, under `limit`.
    pub fn new(limit: usize) -> (r: Self)
        ensures
            r.limit() == limit,
            r.total() == 0,
    {
        BodyReader { limit, total: 0 }
    }

    /// The number of bytes read so far.
    pub fn len(&self) -> (r: usize)
        ensures
            r == self.total(),
    {
        self.total
    }

    /// Counts a chunk of `chunk_len` bytes, failing once the body would pass
    /// the limit.
    pub fn accept(&mut self, chunk_len: usize) -> (r: Result<(), BodyError>)
        ensures
            final(self).limit() == old(self).limit(),
            old(self).total() + chunk_len <= old(self).limit() ==> r is Ok && final(self).total()
                == old(self).total() + chunk_len,
            old(self).total() + chunk_len > old(self).limit() ==> (r matches Err(
                BodyError::LengthLimitExceeded,
            ) && final(self).total() == old(self).total()),
    {
        match self.total.checked_add(chunk_len) {
            Some(t) => {
                if t <= self.limit {
                    self.total = t;
                    Ok(())
                } else {
                    Err(BodyError::LengthLimitExceeded)
                }
            },
            None => Err(BodyError::LengthLimitExceeded),
        }
    }
}

/// Reading chunks of lengths `lens` under `limit` fails exactly when their
/// lengths add up to more than the limit, and otherwise ends at their sum: a
/// body over the limit never gets through.
pub proof fn lemma_length_limit(limit: int, lens: Seq<int>)
    requires
        0 <= limit,
        forall|i: int| 0 <= i < lens.len() ==> lens[i] >= 0,
    ensures
        read_from(limit, 0, lens) is None <==> sum(lens) > limit,
        read_from(limit, 0, lens) matches Some(t) ==> t == sum(lens),
{
    lemma_read_from(limit, 0, lens);
}

proof fn lemma_read_from(limit: int, total: int, lens: Seq<int>)
    requires
        forall|i: int| 0 <= i < lens.len() ==> lens[i] >= 0,
    ensures
        total <= limit ==> (read_from(limit, total, lens) is None <==> total + sum(lens) > limit),
        total > limit && lens.len() > 0 ==> read_from(limit, total, lens) is None,
        read_from(limit, total, lens) matches Some(t) ==> t == total + sum(lens),
    decreases lens.len(),
{
    if lens.len() > 0 {
        let rest = lens.drop_first();
        assert(forall|i: int| 0 <= i < rest.len() ==> rest[i] == lens[i + 1]);
        lemma_read_from(limit, total + lens[0], rest);
        lemma_sum_nonneg(rest);
    }
}

proof fn lemma_sum_nonneg(lens: Seq<int>)
    requires
        forall|i: int| 0 <= i < lens.len() ==> lens[i] >= 0,
    ensures
        sum(lens) >= 0,
    decreases lens.len(),
{
    if lens.len() > 0 {
        let rest = lens.drop_first();
        assert(forall|i: int| 0 <= i < rest.len() ==> rest[i] == lens[i + 1]);
        lemma_sum_nonneg(rest);
    }
}

} // verus!
