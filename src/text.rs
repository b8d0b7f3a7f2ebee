//! Byte-level helpers on UTF-8 strings: cutting a `&str` at positions that
//! sit next to ASCII bytes, and comparing byte ranges.
use vstd::prelude::*;
use vstd::string::StringSliceAdditionalSpecFns;
use vstd::utf8::*;

verus! {

broadcast use vstd::string::group_string_axioms, vstd::utf8::encode_utf8_valid_utf8;

/// The UTF-8 bytes of a string slice.
pub open spec fn bytes_of(s: &str) -> Seq<u8> {
    s.spec_bytes()
}

/// The UTF-8 bytes of a string.
pub open spec fn string_bytes(s: &String) -> Seq<u8> {
    encode_utf8(s@)
}

/// Position `i` of `b` touches an ASCII byte (or an end of `b`), so no
/// multi-byte character can straddle it.
pub open spec fn ascii_edge(b: Seq<u8>, i: int) -> bool {
    ||| i == 0
    ||| i == b.len()
    ||| (0 <= i < b.len() && b[i] < 128)
    ||| (0 < i <= b.len() && b[i - 1] < 128)
}

/// In valid UTF-8, a position next to an ASCII byte is a character boundary.
pub proof fn lemma_ascii_edge_is_boundary(b: Seq<u8>, i: int)
    requires
        valid_utf8(b),
        0 <= i <= b.len(),
        ascii_edge(b, i),
    ensures
        is_char_boundary(b, i),
    decreases b.len(),
{
    if i != 0 {
        let k = length_of_first_scalar(b);
        let rest = pop_first_scalar(b);
        assert(valid_first_scalar(b));
        assert(1 <= k <= 4 && k <= b.len());
        assert(valid_utf8(rest));
        assert(rest.len() == b.len() - k);
        if i < k {
            // Every byte strictly inside the first scalar is a continuation byte.
            assert(is_continuation_byte(b[i]));
            assert(i - 1 == 0 || is_continuation_byte(b[i - 1]));
            assert(k == 1 ==> false);
            assert(false);
        } else {
            assert(forall|j: int| 0 <= j < rest.len() ==> rest[j] == b[j + k]);
            if i - k != 0 && i - k != rest.len() {
                if i < b.len() && b[i] < 128 {
                    assert(rest[i - k] == b[i]);
                } else {
                    assert(rest[i - k - 1] == b[i - 1]);
                }
            }
            lemma_ascii_edge_is_boundary(rest, i - k);
        }
    }
}

/// The part of `s` between byte positions `start` and `end`.
pub fn slice_str(s: &str, start: usize, end: usize) -> (r: &str)
    requires
        start <= end <= bytes_of(s).len(),
        ascii_edge(bytes_of(s), start as int),
        ascii_edge(bytes_of(s), end as int),
    ensures
        bytes_of(r) == bytes_of(s).subrange(start as int, end as int),
{
    let b = Ghost(bytes_of(s));
    proof {
        lemma_ascii_edge_is_boundary(b@, start as int);
    }
    let (_, rest) = s.split_at(start);
    let rb = Ghost(bytes_of(rest));
    proof {
        assert(rb@ =~= b@.subrange(start as int, b@.len() as int));
        let j = (end - start) as int;
        assert(forall|x: int| 0 <= x < rb@.len() ==> rb@[x] == b@[x + start]);
        if j != 0 && j != rb@.len() {
            if b@[end as int] < 128 {
                assert(rb@[j] == b@[end as int]);
            } else {
                assert(rb@[j - 1] == b@[end as int - 1]);
            }
        }
        lemma_ascii_edge_is_boundary(rb@, j);
    }
    let (mid, _) = rest.split_at(end - start);
    proof {
        assert(bytes_of(mid) =~= b@.subrange(start as int, end as int));
    }
    mid
}

/// Whether `a` equals the bytes of `b` between `start` and `end`.
pub fn range_eq(a: &[u8], b: &[u8], start: usize, end: usize) -> (r: bool)
    requires
        start <= end <= b@.len(),
    ensures
        r == (a@ == b@.subrange(start as int, end as int)),
{
    if a.len() != end - start {
        proof {
            assert(b@.subrange(start as int, end as int).len() != a@.len());
        }
        return false;
    }
    let mut i: usize = 0;
    while i < a.len()
        invariant
            a@.len() == end - start,
            start <= end <= b@.len(),
            i <= a@.len(),
            forall|j: int| 0 <= j < i ==> a@[j] == b@[start + j],
        decreases a@.len() - i,
    {
        if a[i] != b[start + i] {
            proof {
                assert(b@.subrange(start as int, end as int)[i as int] != a@[i as int]);
            }
            return false;
        }
        i = i + 1;
    }
    proof {
        assert(a@ =~= b@.subrange(start as int, end as int));
    }
    true
}

/// Whether two strings hold the same characters.
pub fn str_eq(a: &str, b: &str) -> (r: bool)
    ensures
        r == (a@ == b@),
{
    let ab = a.as_bytes();
    let bb = b.as_bytes();
    let r = range_eq(ab, bb, 0, bb.len());
    proof {
        assert(bb@.subrange(0, bb@.len() as int) =~= bb@);
        if r {
            vstd::utf8::encode_utf8_decode_utf8(a@);
            vstd::utf8::encode_utf8_decode_utf8(b@);
        }
    }
    r
}

} // verus!
