//! The path router: route patterns made of static segments, named captures
//! and an optional tail wildcard, tried in registration order.
use vstd::prelude::*;
use vstd::string::StringSliceAdditionalSpecFns;

use crate::text::{ascii_edge, bytes_of, range_eq, slice_str, string_bytes};

verus! {

broadcast use vstd::string::group_string_axioms;

/// The HTTP methods a route can be registered for.
#[derive(Clone, Copy, Debug, PartialEq, Eq, Structural)]
pub enum Method {
    Get,
    Post,
    Put,
    Delete,
    Head,
    Options,
    Connect,
    Patch,
    Trace,
}

/// The bit position of each method in a route's method mask.
pub open spec fn method_index(m: Method) -> u16 {
    match m {
        Method::Get => 0,
        Method::Post => 1,
        Method::Put => 2,
        Method::Delete => 3,
        Method::Head => 4,
        Method::Options => 5,
        Method::Connect => 6,
        Method::Patch => 7,
        Method::Trace => 8,
    }
}

proof fn lemma_method_index_injective(a: Method, b: Method)
    ensures
        method_index(a) == method_index(b) ==> a == b,
{
}

/// The bit position of `method` in a method mask.
pub fn to_index(method: &Method) -> (r: u8)
    ensures
        r as u16 == method_index(*method),
        r < 9,
{
    match method {
        Method::Get => 0,
        Method::Post => 1,
        Method::Put => 2,
        Method::Delete => 3,
        Method::Head => 4,
        Method::Options => 5,
        Method::Connect => 6,
        Method::Patch => 7,
        Method::Trace => 8,
    }
}

/// Whether `mask` holds the bit of method `m`.
pub open spec fn mask_has(mask: u16, m: Method) -> bool {
    mask & (1u16 << method_index(m)) != 0
}

proof fn lemma_mask_add(acc: u16, j: u16, k: u16)
    requires
        j < 9,
        k < 9,
    ensures
        ((acc | (1u16 << j)) & (1u16 << k) != 0) == ((acc & (1u16 << k) != 0) || j == k),
{
    assert(((acc | (1u16 << j)) & (1u16 << k) != 0) == ((acc & (1u16 << k) != 0) || j == k))
        by (bit_vector)
        requires
            j < 9,
            k < 9,
    ;
}

proof fn lemma_mask_zero(k: u16)
    requires
        k < 9,
    ensures
        (0u16 & (1u16 << k)) == 0,
{
    assert((0u16 & (1u16 << k)) == 0) by (bit_vector);
}

/// The mask that holds exactly the methods of `methods`.
fn method_mask(methods: &[Method]) -> (r: u16)
    ensures
        forall|m: Method| mask_has(r, m) <==> methods@.contains(m),
{
    let mut acc: u16 = 0;
    let mut i: usize = 0;
    proof {
        assert forall|m: Method| !mask_has(0u16, m) by {
            lemma_mask_zero(method_index(m));
        }
        assert(methods@.subrange(0, 0) =~= Seq::<Method>::empty());
    }
    while i < methods.len()
        invariant
            i <= methods@.len(),
            forall|m: Method| mask_has(acc, m) <==> methods@.subrange(0, i as int).contains(m),
        decreases methods@.len() - i,
    {
        let j: u16 = to_index(&methods[i]) as u16;
        let next = acc | (1u16 << j);
        proof {
            assert forall|m: Method| mask_has(next, m) <==> methods@.subrange(0, i + 1).contains(m) by {
                lemma_mask_add(acc, j, method_index(m));
                lemma_method_index_injective(methods@[i as int], m);
                let prev = methods@.subrange(0, i as int);
                let cur = methods@.subrange(0, i + 1);
                assert(cur =~= prev.push(methods@[i as int]));
                if prev.contains(m) {
                    let w = choose|w: int| 0 <= w < prev.len() && prev[w] == m;
                    assert(cur[w] == m);
                }
                if cur.contains(m) {
                    let w = choose|w: int| 0 <= w < cur.len() && cur[w] == m;
                    if w < i {
                        assert(prev[w] == m);
                    }
                }
                if j == method_index(m) {
                    assert(cur[i as int] == m);
                }
                assert(mask_has(acc, m) == prev.contains(m));
                assert(mask_has(next, m) == (mask_has(acc, m) || j == method_index(m)));
                assert(cur.contains(m) == (prev.contains(m) || methods@[i as int] == m));
            }
        }
        acc = next;
        i = i + 1;
    }
    proof {
        assert(methods@.subrange(0, i as int) =~= methods@);
    }
    acc
}

// ---------------------------------------------------------------------------
// Splitting a path into its segments.

/// The position of the first `/` in `p` at or after `i`, or `p.len()`.
pub open spec fn next_slash(p: Seq<u8>, i: int) -> int
    decreases p.len() - i,
{
    if i >= p.len() || i < 0 {
        p.len() as int
    } else if p[i] == 47u8 {
        i
    } else {
        next_slash(p, i + 1)
    }
}

/// The byte ranges of the `/`-separated pieces of `p` from position `start` on.
pub open spec fn split_from(p: Seq<u8>, start: int) -> Seq<(int, int)>
    decreases p.len() + 1 - start,
{
    if start < 0 || start > p.len() {
        seq![]
    } else {
        let j = next_slash(p, start);
        if j < start {
            seq![]
        } else if j >= p.len() {
            seq![(start, p.len() as int)]
        } else {
            seq![(start, j)].add(split_from(p, j + 1))
        }
    }
}

/// The byte ranges of the segments of path `p`: what follows the leading `/`,
/// cut at every further `/`.
pub open spec fn path_parts(p: Seq<u8>) -> Seq<(int, int)> {
    split_from(p, 1)
}

proof fn lemma_next_slash(p: Seq<u8>, i: int)
    requires
        0 <= i <= p.len(),
    ensures
        i <= next_slash(p, i) <= p.len(),
        next_slash(p, i) < p.len() ==> p[next_slash(p, i)] == 47u8,
        forall|x: int| i <= x < next_slash(p, i) ==> p[x] != 47u8,
    decreases p.len() - i,
{
    if i < p.len() && p[i] != 47u8 {
        lemma_next_slash(p, i + 1);
    }
}

proof fn lemma_next_slash_skip(p: Seq<u8>, s: int, i: int)
    requires
        0 <= s <= i <= p.len(),
        forall|x: int| s <= x < i ==> p[x] != 47u8,
    ensures
        next_slash(p, s) == next_slash(p, i),
    decreases i - s,
{
    if s < i {
        lemma_next_slash_skip(p, s + 1, i);
    }
}

/// Facts about each piece of a split: it lies in `p`, is preceded by a `/`
/// (or is the first piece), ends at a `/` or at the end of `p`, and the next
/// piece starts right after that `/`.
proof fn lemma_split_from(p: Seq<u8>, start: int)
    requires
        0 < start <= p.len(),
        p[start - 1] == 47u8,
    ensures
        split_from(p, start).len() >= 1,
        split_from(p, start)[0].0 == start,
        forall|k: int|
            0 <= k < split_from(p, start).len() ==> {
                let r = #[trigger] split_from(p, start)[k];
                &&& start <= r.0 <= r.1 <= p.len()
                &&& p[r.0 - 1] == 47u8
                &&& (r.1 == p.len() || p[r.1] == 47u8)
                &&& (k + 1 < split_from(p, start).len() ==> split_from(p, start)[k + 1].0 == r.1 + 1)
                &&& (k + 1 == split_from(p, start).len() ==> r.1 == p.len())
            },
    decreases p.len() + 1 - start,
{
    lemma_next_slash(p, start);
    let j = next_slash(p, start);
    if j < p.len() {
        lemma_split_from(p, j + 1);
        let rest = split_from(p, j + 1);
        let all = split_from(p, start);
        assert(all =~= seq![(start, j)].add(rest));
        assert forall|k: int| 0 < k < all.len() implies #[trigger] all[k] == rest[k - 1] by {}
    }
}

/// Each segment range of a path lies inside it, after a `/`, and ends at a
/// `/` or at the end; consecutive ranges are one `/` apart.
pub proof fn lemma_path_parts(p: Seq<u8>)
    requires
        p.len() >= 1,
        p[0] == 47u8,
    ensures
        path_parts(p).len() >= 1,
        path_parts(p)[0].0 == 1,
        forall|k: int|
            0 <= k < path_parts(p).len() ==> {
                let r = #[trigger] path_parts(p)[k];
                &&& 1 <= r.0 <= r.1 <= p.len()
                &&& p[r.0 - 1] == 47u8
                &&& (r.1 == p.len() || p[r.1] == 47u8)
                &&& (k + 1 < path_parts(p).len() ==> path_parts(p)[k + 1].0 == r.1 + 1)
                &&& (k + 1 == path_parts(p).len() ==> r.1 == p.len())
            },
{
    lemma_split_from(p, 1);
}

/// The segment ranges of one path, kept inline while there are few.
#[verifier::external_body]
pub struct PathParts {
    items: smallvec::SmallVec<[(usize, usize); 4]>,
}

/// The items of a vector of segment ranges, in order.
pub uninterp spec fn parts_items(v: PathParts) -> Seq<(usize, usize)>;

/// Relies on `SmallVec::new`: a vector with no items.
#[verifier::external_body]
fn parts_new() -> (r: PathParts)
    ensures
        parts_items(r) == Seq::<(usize, usize)>::empty(),
{
    PathParts { items: smallvec::SmallVec::new() }
}

/// Relies on `SmallVec::push`: appends `x` after the items.
#[verifier::external_body]
fn parts_push(v: &mut PathParts, x: (usize, usize))
    ensures
        parts_items(*final(v)) == parts_items(*old(v)).push(x),
{
    v.items.push(x)
}

/// Relies on `SmallVec::pop`: removes and returns the last item, if any.
#[verifier::external_body]
fn parts_pop(v: &mut PathParts) -> (r: Option<(usize, usize)>)
    ensures
        parts_items(*old(v)).len() > 0 ==> r == Some(parts_items(*old(v)).last()) && parts_items(
            *final(v),
        ) == parts_items(*old(v)).drop_last(),
        parts_items(*old(v)).len() == 0 ==> r is None && parts_items(*final(v)) == parts_items(
            *old(v),
        ),
{
    v.items.pop()
}

/// Relies on `SmallVec::as_slice`: the items, in order.
#[verifier::external_body]
fn parts_slice(v: &PathParts) -> (r: &[(usize, usize)])
    ensures
        r@ == parts_items(*v),
{
    v.items.as_slice()
}

/// Machine-integer ranges read as mathematical ones.
pub open spec fn int_ranges(parts: Seq<(usize, usize)>) -> Seq<(int, int)> {
    parts.map_values(|r: (usize, usize)| (r.0 as int, r.1 as int))
}

/// The segment ranges of `path` (which starts with `/`).
fn split_path(path: &[u8]) -> (r: PathParts)
    requires
        path@.len() >= 1,
        path@[0] == 47u8,
    ensures
        int_ranges(parts_items(r)) == path_parts(path@),
{
    let ghost p = path@;
    let mut parts = parts_new();
    let mut seg_start: usize = 1;
    let mut i: usize = 1;
    proof {
        assert(int_ranges(parts_items(parts)) + split_from(p, 1) =~= path_parts(p));
    }
    while i < path.len()
        invariant
            p == path@,
            1 <= seg_start <= i <= p.len(),
            forall|x: int| seg_start <= x < i ==> p[x] != 47u8,
            int_ranges(parts_items(parts)) + split_from(p, seg_start as int) == path_parts(p),
        decreases p.len() - i,
    {
        if path[i] == 47u8 {
            proof {
                lemma_next_slash_skip(p, seg_start as int, i as int);
                let cur = split_from(p, seg_start as int);
                let nxt = split_from(p, i as int + 1);
                assert(cur == seq![(seg_start as int, i as int)].add(nxt));
                assert(int_ranges(parts_items(parts).push((seg_start, i))) =~= int_ranges(parts_items(parts)).push(
                    (seg_start as int, i as int),
                ));
                assert(int_ranges(parts_items(parts)).push((seg_start as int, i as int)) + nxt
                    =~= int_ranges(parts_items(parts)) + cur);
            }
            parts_push(&mut parts, (seg_start, i));
            seg_start = i + 1;
        }
        i = i + 1;
    }
    proof {
        lemma_next_slash_skip(p, seg_start as int, i as int);
        let cur = split_from(p, seg_start as int);
        assert(cur == seq![(seg_start as int, p.len() as int)]);
        assert(int_ranges(parts_items(parts).push((seg_start, i))) =~= int_ranges(parts_items(parts)).push(
            (seg_start as int, i as int),
        ));
        assert(int_ranges(parts_items(parts)).push((seg_start as int, i as int)) =~= int_ranges(parts_items(parts)) + cur);
    }
    parts_push(&mut parts, (seg_start, path.len()));
    parts
}

// ---------------------------------------------------------------------------
// Routes and captures.

/// One segment of a compiled route pattern.
#[derive(Debug)]
pub enum Segment {
    /// Matches a path segment equal to this text.
    Static(&'static str),
    /// Matches any single path segment, recorded under this name.
    Capture(&'static str),
}

impl Segment {
    pub open spec fn is_capture(&self) -> bool {
        self is Capture
    }

    pub open spec fn text(&self) -> Seq<u8> {
        match self {
            Segment::Static(s) => bytes_of(s),
            Segment::Capture(s) => bytes_of(s),
        }
    }
}

/// A compiled route: its segments, whether it ends in a tail wildcard, the
/// index it stands for, and the mask of methods it accepts.
#[derive(Debug)]
pub struct Route {
    pub segments: Vec<Segment>,
    pub catch_tail: bool,
    pub data_index: usize,
    pub method_mask: u16,
}

/// A route with `n` segments (and a tail wildcard if `tail`) can match a path
/// of `k` segments: exactly `k` without a tail, fewer than `k` with one.
pub open spec fn compatible(n: int, tail: bool, k: int) -> bool {
    if tail {
        n + 1 <= k
    } else {
        n == k
    }
}

/// The captures recorded by the first `n` segments of a route against the
/// path parts `parts`: each capture segment's name with its part's range.
pub open spec fn captured_upto(segs: Seq<Segment>, parts: Seq<(int, int)>, n: int) -> Seq<
    (Seq<u8>, int, int),
>
    decreases n,
{
    if n <= 0 {
        seq![]
    } else {
        let prev = captured_upto(segs, parts, n - 1);
        if segs[n - 1].is_capture() {
            prev.push((segs[n - 1].text(), parts[n - 1].0, parts[n - 1].1))
        } else {
            prev
        }
    }
}

impl Route {
    /// Whether the segment structure of the route matches the path `p`.
    pub open spec fn matches(&self, p: Seq<u8>) -> bool {
        let parts = path_parts(p);
        let n = self.segments@.len() as int;
        &&& compatible(n, self.catch_tail, parts.len() as int)
        &&& forall|i: int|
            0 <= i < n && !(#[trigger] self.segments@[i]).is_capture() ==> self.segments@[i].text()
                == p.subrange(parts[i].0, parts[i].1)
    }

    /// The named ranges a match of `p` records.
    pub open spec fn captured(&self, p: Seq<u8>) -> Seq<(Seq<u8>, int, int)> {
        captured_upto(self.segments@, path_parts(p), self.segments@.len() as int)
    }

    /// Where the wildcard tail starts in a match of `p`: at the `/` that
    /// ends the last pattern segment.
    pub open spec fn tail_of(&self, p: Seq<u8>) -> Option<int> {
        if self.catch_tail {
            Some(path_parts(p)[self.segments@.len() as int].0 - 1)
        } else {
            None
        }
    }

    /// Tries to match the path with parts `parts`; on success appends the
    /// captures to `captures` and records the tail offset.
    #[verifier::rlimit(50)]
    pub fn try_match(&self, captures: &mut Captures, path: &str, parts: &[(usize, usize)]) -> (r:
        Option<usize>)
        requires
            parts_of(parts@, bytes_of(path)),
        ensures
            r is Some <==> self.matches(bytes_of(path)),
            self.matches(bytes_of(path)) ==> {
                &&& r == Some(self.data_index)
                &&& final(captures).params_view() == old(captures).params_view() + self.captured(
                    bytes_of(path),
                )
                &&& final(captures).tail_view() == self.tail_of(bytes_of(path))
            },
            !self.matches(bytes_of(path)) ==> final(captures).params_view() == old(
                captures,
            ).params_view() && final(captures).tail_view() == old(captures).tail_view(),
    {
        let ghost p = bytes_of(path);
        let ghost ps = path_parts(p);
        let n = self.segments.len();
        proof {
            lemma_path_parts(p);
        }
        // The pattern's segments, plus one for a tail wildcard, must not
        // outnumber the path's.
        let too_short = if self.catch_tail {
            n >= parts.len()
        } else {
            n > parts.len()
        };
        if too_short {
            return None;
        }
        if n < parts.len() && !self.catch_tail {
            return None;
        }
        let pb = path.as_bytes();
        let origin_len = captures.params.len();
        let ghost old_params = captures.params@;
        let mut i: usize = 0;
        while i < n
            invariant
                p == bytes_of(path),
                pb@ == p,
                ps == path_parts(p),
                parts_of(parts@, p),
                n == self.segments@.len(),
                n <= parts@.len(),
                i <= n,
                forall|k: int| 0 <= k < ps.len() ==> 0 <= (#[trigger] ps[k]).0 <= ps[k].1 <= p.len(),
                origin_len == old_params.len(),
                captures.tail == old(captures).tail,
                old_params == old(captures).params@,
                captures.params@.subrange(0, origin_len as int) == old_params,
                captures.params@.len() >= origin_len,
                forall|j: int|
                    0 <= j < i && !(#[trigger] self.segments@[j]).is_capture()
                        ==> self.segments@[j].text() == p.subrange(ps[j].0, ps[j].1),
                captures.params_view() == old(captures).params_view() + captured_upto(
                    self.segments@,
                    ps,
                    i as int,
                ),
            decreases n - i,
        {
            proof {
                assert(int_ranges(parts@)[i as int] == (parts@[i as int].0 as int, parts@[i as int].1 as int));
            }
            let (start, end) = parts[i];
            match &self.segments[i] {
                Segment::Static(s) => {
                    if !range_eq(s.as_bytes(), pb, start, end) {
                        captures.params.truncate(origin_len);
                        proof {
                            assert(captures.params@ =~= old_params);
                            assert(captures.params_view() =~= old(captures).params_view());
                            assert(!self.matches(p));
                        }
                        return None;
                    }
                },
                Segment::Capture(name) => {
                    let ghost before = captures.params_view();
                    let ghost before_vec = captures.params@;
                    captures.params.push((*name, start, end));
                    proof {
                        assert(captures.params@ == before_vec.push((*name, start, end)));
                        assert(captures.params_view() =~= before.push(
                            (bytes_of(*name), start as int, end as int),
                        ));
                        assert(int_ranges(parts@)[i as int] == (start as int, end as int));
                        assert(self.segments@[i as int].is_capture());
                        assert(self.segments@[i as int].text() == bytes_of(*name));
                        assert(captured_upto(self.segments@, ps, i + 1) == captured_upto(
                            self.segments@,
                            ps,
                            i as int,
                        ).push((bytes_of(*name), start as int, end as int)));
                        assert(captures.params_view() =~= old(captures).params_view()
                            + captured_upto(self.segments@, ps, i + 1));
                        assert(captures.params@.subrange(0, origin_len as int) =~= old_params);
                    }
                },
            }
            proof {
                if !self.segments@[i as int].is_capture() {
                    assert(captured_upto(self.segments@, ps, i + 1) == captured_upto(
                        self.segments@,
                        ps,
                        i as int,
                    ));
                }
            }
            i = i + 1;
        }
        captures.tail = if self.catch_tail {
            Some(parts[n].0 - 1)
        } else {
            None
        };
        Some(self.data_index)
    }
}

/// `parts` holds, as machine integers, the segment ranges of path `p`, which
/// starts with `/`.
pub open spec fn parts_of(parts: Seq<(usize, usize)>, p: Seq<u8>) -> bool {
    &&& p.len() >= 1
    &&& p[0] == 47u8
    &&& int_ranges(parts) == path_parts(p)
}

/// The capture `c` is a range of `p` that touches ASCII bytes at both ends.
pub open spec fn ranges_in(c: (Seq<u8>, int, int), p: Seq<u8>) -> bool {
    &&& 0 <= c.1 <= c.2 <= p.len()
    &&& ascii_edge(p, c.1)
    &&& ascii_edge(p, c.2)
}

/// The range of the first capture, from position `i` on, named `name`.
pub open spec fn lookup_from(params: Seq<(Seq<u8>, int, int)>, name: Seq<u8>, i: int) -> Option<
    (int, int),
>
    decreases params.len() - i,
{
    if i < 0 || i >= params.len() {
        None
    } else if params[i].0 == name {
        Some((params[i].1, params[i].2))
    } else {
        lookup_from(params, name, i + 1)
    }
}

/// The range of the first capture named `name`.
pub open spec fn lookup(params: Seq<(Seq<u8>, int, int)>, name: Seq<u8>) -> Option<(int, int)> {
    lookup_from(params, name, 0)
}

/// The result of matching one path: the named ranges captured so far and the
/// offset where a wildcard tail begins.
#[derive(Debug)]
pub struct Captures {
    params: Vec<(&'static str, usize, usize)>,
    tail: Option<usize>,
}

impl Captures {
    /// The recorded captures as (name, start, end) over bytes.
    pub closed spec fn params_view(&self) -> Seq<(Seq<u8>, int, int)> {
        self.params@.map_values(|e: (&'static str, usize, usize)| (bytes_of(e.0), e.1 as int, e.2 as int))
    }

    pub closed spec fn tail_view(&self) -> Option<int> {
        match self.tail {
            Some(t) => Some(t as int),
            None => None,
        }
    }

    /// Every recorded range lies in `p` and touches ASCII bytes at both ends,
    /// so it can be cut out of the string whose bytes are `p`.
    pub closed spec fn valid_for(&self, p: Seq<u8>) -> bool {
        forall|k: int|
            0 <= k < self.params_view().len() ==> ranges_in(#[trigger] self.params_view()[k], p)
    }

    /// The text captured under `name` in `path`: the range of the earliest
    /// capture with that name.
    pub fn get_param<'p>(&self, path: &'p str, name: &str) -> (r: Option<&'p str>)
        requires
            self.valid_for(bytes_of(path)),
        ensures
            match lookup(self.params_view(), bytes_of(name)) {
                Some(rg) => r is Some && bytes_of(r.unwrap()) == bytes_of(path).subrange(rg.0, rg.1),
                None => r is None,
            },
    {
        let nb = name.as_bytes();
        let mut i: usize = 0;
        while i < self.params.len()
            invariant
                self.valid_for(bytes_of(path)),
                nb@ == bytes_of(name),
                i <= self.params@.len(),
                lookup(self.params_view(), bytes_of(name)) == lookup_from(
                    self.params_view(),
                    bytes_of(name),
                    i as int,
                ),
            decreases self.params@.len() - i,
        {
            let (n, start, end) = self.params[i];
            proof {
                assert(self.params_view()[i as int] == (bytes_of(n), start as int, end as int));
                assert(ranges_in(self.params_view()[i as int], bytes_of(path)));
            }
            let nbytes = n.as_bytes();
            if range_eq(nbytes, nb, 0, nb.len()) {
                proof {
                    assert(nb@.subrange(0, nb@.len() as int) =~= nb@);
                }
                return Some(slice_str(path, start, end));
            }
            proof {
                assert(nb@.subrange(0, nb@.len() as int) =~= nb@);
            }
            i = i + 1;
        }
        None
    }

    /// A match result with nothing captured.
    pub fn empty() -> (r: Self)
        ensures
            r.params_view() == Seq::<(Seq<u8>, int, int)>::empty(),
            r.tail_view() is None,
    {
        let r = Captures { params: Vec::new(), tail: None };
        proof {
            assert(r.params_view() =~= Seq::<(Seq<u8>, int, int)>::empty());
        }
        r
    }
}

// ---------------------------------------------------------------------------
// The router.

/// The first route, from position `i` on, that accepts method `m` and whose
/// segments match path `p`.
pub open spec fn first_match_from(routes: Seq<Route>, m: Method, p: Seq<u8>, i: int) -> Option<int>
    decreases routes.len() - i,
{
    if i < 0 || i >= routes.len() {
        None
    } else if mask_has(routes[i].method_mask, m) && routes[i].matches(p) {
        Some(i)
    } else {
        first_match_from(routes, m, p, i + 1)
    }
}

/// A first match is a position of `routes` from `i` on, and that route
/// accepts `m` and matches `p`.
pub proof fn lemma_first_match_from(routes: Seq<Route>, m: Method, p: Seq<u8>, i: int)
    requires
        0 <= i,
    ensures
        first_match_from(routes, m, p, i) matches Some(j) ==> i <= j < routes.len() && mask_has(
            routes[j].method_mask,
            m,
        ) && routes[j].matches(p),
    decreases routes.len() - i,
{
    if i < routes.len() {
        lemma_first_match_from(routes, m, p, i + 1);
    }
}

/// The first route in registration order that accepts `m` and matches `p`.
pub open spec fn first_match(routes: Seq<Route>, m: Method, p: Seq<u8>) -> Option<int> {
    first_match_from(routes, m, p, 0)
}

/// Whether the last segment of pattern `q` is the tail wildcard `**`.
pub open spec fn has_tail(q: Seq<u8>) -> bool {
    let ps = path_parts(q);
    let last = ps[ps.len() - 1];
    q.subrange(last.0, last.1) == seq![42u8, 42u8]
}

/// The ranges of pattern `q` that become segments: all of its parts but a
/// final tail wildcard.
pub open spec fn pattern_parts(q: Seq<u8>) -> Seq<(int, int)> {
    if has_tail(q) {
        path_parts(q).drop_last()
    } else {
        path_parts(q)
    }
}

/// The segment compiled from the range `r` of pattern `q`: a capture named by
/// what follows a leading `:`, else a static segment of that text.
pub open spec fn compiles_to(seg: Segment, q: Seq<u8>, r: (int, int)) -> bool {
    if r.1 > r.0 && q[r.0] == 58u8 {
        seg.is_capture() && seg.text() == q.subrange(r.0 + 1, r.1)
    } else {
        !seg.is_capture() && seg.text() == q.subrange(r.0, r.1)
    }
}

/// `route` is what pattern `q`, the method list `methods` and `data_index`
/// compile to.
pub open spec fn compiled(route: Route, q: Seq<u8>, methods: Seq<Method>, data_index: usize) -> bool {
    &&& route.segments@.len() == pattern_parts(q).len()
    &&& forall|i: int|
        0 <= i < route.segments@.len() ==> compiles_to(
            #[trigger] route.segments@[i],
            q,
            pattern_parts(q)[i],
        )
    &&& route.catch_tail == has_tail(q)
    &&& route.data_index == data_index
    &&& forall|m: Method| mask_has(route.method_mask, m) <==> methods.contains(m)
}

/// The segments compiled from the ranges `parts` of `pattern`, which are the
/// pattern's parts without a final tail wildcard.
fn compile_segments(pattern: &'static str, parts: &[(usize, usize)]) -> (r: Vec<Segment>)
    requires
        bytes_of(pattern).len() >= 1,
        bytes_of(pattern)[0] == 47u8,
        int_ranges(parts@) == pattern_parts(bytes_of(pattern)),
    ensures
        r@.len() == pattern_parts(bytes_of(pattern)).len(),
        forall|k: int|
            0 <= k < r@.len() ==> compiles_to(
                #[trigger] r@[k],
                bytes_of(pattern),
                pattern_parts(bytes_of(pattern))[k],
            ),
{
    let ghost q = bytes_of(pattern);
    let ghost pp = pattern_parts(q);
    let pb = pattern.as_bytes();
    proof {
        lemma_path_parts(q);
        assert(forall|k: int| 0 <= k < pp.len() ==> #[trigger] pp[k] == path_parts(q)[k]);
    }
    let mut segments: Vec<Segment> = Vec::new();
    let mut i: usize = 0;
    while i < parts.len()
        invariant
            q == bytes_of(pattern),
            pb@ == q,
            int_ranges(parts@) == pp,
            forall|k: int|
                0 <= k < pp.len() ==> {
                    let r = #[trigger] pp[k];
                    &&& 1 <= r.0 <= r.1 <= q.len()
                    &&& q[r.0 - 1] == 47u8
                    &&& (r.1 == q.len() || q[r.1] == 47u8)
                },
            i <= parts@.len(),
            segments@.len() == i,
            forall|k: int| 0 <= k < i ==> compiles_to(#[trigger] segments@[k], q, pp[k]),
        decreases parts@.len() - i,
    {
        let (s, e) = parts[i];
        proof {
            assert(int_ranges(parts@)[i as int] == (s as int, e as int));
        }
        let seg = if e > s && pb[s] == 58u8 {
            Segment::Capture(slice_str(pattern, s + 1, e))
        } else {
            Segment::Static(slice_str(pattern, s, e))
        };
        segments.push(seg);
        i = i + 1;
    }
    segments
}

/// The ranges of pattern `pb` that become segments, and whether it ends in a
/// tail wildcard.
fn pattern_ranges(pb: &[u8]) -> (r: (PathParts, bool))
    requires
        pb@.len() >= 1,
        pb@[0] == 47u8,
    ensures
        int_ranges(parts_items(r.0)) == pattern_parts(pb@),
        r.1 == has_tail(pb@),
{
    let ghost q = pb@;
    let mut parts = split_path(pb);
    proof {
        let n = path_parts(q).len() as int;
        assert(n >= 1 && 0 <= path_parts(q)[n - 1].0 <= path_parts(q)[n - 1].1 <= q.len()) by {
            lemma_path_parts(q);
        }
        assert(parts_items(parts).len() == n);
    }
    let slice = parts_slice(&parts);
    let last = slice[slice.len() - 1];
    let catch_tail = last.1 - last.0 == 2 && pb[last.0] == 42u8 && pb[last.0 + 1] == 42u8;
    proof {
        let lq = path_parts(q)[path_parts(q).len() - 1];
        assert(int_ranges(parts_items(parts))[parts_items(parts).len() - 1] == (last.0 as int, last.1 as int));
        if catch_tail {
            assert(q.subrange(lq.0, lq.1) =~= seq![42u8, 42u8]);
        } else if q.subrange(lq.0, lq.1) == seq![42u8, 42u8] {
            assert(lq == (last.0 as int, last.1 as int));
            assert(seq![42u8, 42u8].len() == 2);
            assert(seq![42u8, 42u8][0] == 42u8 && seq![42u8, 42u8][1] == 42u8);
            assert(lq.1 - lq.0 == 2);
            assert(q.subrange(lq.0, lq.1)[0] == q[lq.0]);
            assert(q.subrange(lq.0, lq.1)[1] == q[lq.0 + 1]);
        }
    }
    if catch_tail {
        parts_pop(&mut parts);
        proof {
            assert(int_ranges(parts_items(parts)) =~= path_parts(q).drop_last());
        }
    }
    (parts, catch_tail)
}

/// An ordered table of routes; lookups try them in registration order.
#[derive(Debug)]
pub struct Router {
    routes: Vec<Route>,
}

impl Router {
    /// The routes in registration order.
    pub closed spec fn routes(&self) -> Seq<Route> {
        self.routes@
    }

    /// A router without routes.
    pub fn new() -> (r: Self)
        ensures
            r.routes() == Seq::<Route>::empty(),
    {
        Router { routes: Vec::new() }
    }

    /// The data index of the first route that accepts `method` and matches
    /// `path`; on a match the route's captures are appended to `captures`
    /// and its tail offset recorded, otherwise `captures` is left as it was.
    pub fn find(&self, captures: &mut Captures, method: &Method, path: &str) -> (r: Option<usize>)
        requires
            bytes_of(path).len() >= 1,
            bytes_of(path)[0] == 47u8,
        ensures
            match first_match(self.routes(), *method, bytes_of(path)) {
                Some(i) => {
                    &&& r == Some(self.routes()[i].data_index)
                    &&& final(captures).params_view() == old(captures).params_view()
                        + self.routes()[i].captured(bytes_of(path))
                    &&& final(captures).tail_view() == self.routes()[i].tail_of(bytes_of(path))
                },
                None => {
                    &&& r is None
                    &&& final(captures).params_view() == old(captures).params_view()
                    &&& final(captures).tail_view() == old(captures).tail_view()
                },
            },
            old(captures).valid_for(bytes_of(path)) ==> final(captures).valid_for(bytes_of(path)),
    {
        let ghost p = bytes_of(path);
        let path_parts = split_path(path.as_bytes());
        let parts = parts_slice(&path_parts);
        let mask: u16 = 1u16 << (to_index(method) as u16);
        let mut i: usize = 0;
        while i < self.routes.len()
            invariant
                p == bytes_of(path),
                parts_of(parts@, p),
                mask == 1u16 << method_index(*method),
                i <= self.routes@.len(),
                first_match(self.routes@, *method, p) == first_match_from(
                    self.routes@,
                    *method,
                    p,
                    i as int,
                ),
                captures.params_view() == old(captures).params_view(),
                captures.tail_view() == old(captures).tail_view(),
            decreases self.routes@.len() - i,
        {
            let route = &self.routes[i];
            if route.method_mask & mask == 0 {
                i = i + 1;
                continue;
            }
            let ghost before = captures.params_view();
            if let Some(index) = route.try_match(captures, path, parts) {
                proof {
                    let n = route.segments@.len() as int;
                    lemma_captured_in_path(route.segments@, p, n);
                    let added = route.captured(p);
                    if old(captures).valid_for(p) {
                        assert forall|k: int|
                            0 <= k < captures.params_view().len() implies ranges_in(
                            #[trigger] captures.params_view()[k],
                            p,
                        ) by {
                            if k < before.len() {
                                assert(captures.params_view()[k] == before[k]);
                            } else {
                                assert(captures.params_view()[k] == added[k - before.len()]);
                            }
                        }
                    }
                }
                return Some(index);
            }
            i = i + 1;
        }
        None
    }

    /// Compiles `pattern` into a route for `methods` standing for
    /// `data_index`, and appends it.
    pub fn add_route(
        &mut self,
        methods: &[Method],
        pattern: &'static str,
        data_index: usize,
        allow_tail: bool,
    )
        requires
            bytes_of(pattern).len() >= 1,
            bytes_of(pattern)[0] == 47u8,
            allow_tail || !has_tail(bytes_of(pattern)),
        ensures
            final(self).routes().len() == old(self).routes().len() + 1,
            final(self).routes().subrange(0, old(self).routes().len() as int) == old(self).routes(),
            compiled(
                final(self).routes()[old(self).routes().len() as int],
                bytes_of(pattern),
                methods@,
                data_index,
            ),
    {
        let ghost q = bytes_of(pattern);
        let (parts, catch_tail) = pattern_ranges(pattern.as_bytes());
        let segments = compile_segments(pattern, parts_slice(&parts));
        let method_mask = method_mask(methods);
        let route = Route { segments, catch_tail, data_index, method_mask };
        self.routes.push(route);
        proof {
            assert(self.routes@.subrange(0, old(self).routes@.len() as int) =~= old(self).routes@);
        }
    }
}

/// The captures of one route match, recorded under the path's segment ranges.
proof fn lemma_captured_in_path(segs: Seq<Segment>, p: Seq<u8>, n: int)
    requires
        p.len() >= 1,
        p[0] == 47u8,
        0 <= n <= path_parts(p).len(),
    ensures
        forall|k: int|
            0 <= k < captured_upto(segs, path_parts(p), n).len() ==> ranges_in(
                #[trigger] captured_upto(segs, path_parts(p), n)[k],
                p,
            ),
    decreases n,
{
    if n > 0 {
        lemma_captured_in_path(segs, p, n - 1);
        lemma_path_parts(p);
        let r = path_parts(p)[n - 1];
        assert(p[r.0 - 1] == 47u8);
        assert(ascii_edge(p, r.0));
        assert(ascii_edge(p, r.1));
        let prev = captured_upto(segs, path_parts(p), n - 1);
        let cur = captured_upto(segs, path_parts(p), n);
        assert forall|k: int| 0 <= k < cur.len() implies ranges_in(#[trigger] cur[k], p) by {
            if k < prev.len() {
                assert(cur[k] == prev[k]);
            }
        }
    }
}

/// Captures held together with the path they were taken from.
#[derive(Debug)]
pub struct CaptureOwned {
    path: String,
    captures: Captures,
}

impl CaptureOwned {
    #[verifier::type_invariant]
    spec fn inv(&self) -> bool {
        self.captures.valid_for(string_bytes(&self.path))
    }

    /// The bytes of the path.
    pub closed spec fn path_view(&self) -> Seq<u8> {
        string_bytes(&self.path)
    }

    /// The captures as (name, start, end) over the path's bytes.
    pub closed spec fn params_view(&self) -> Seq<(Seq<u8>, int, int)> {
        self.captures.params_view()
    }

    /// The text of the path captured under `name`, if any.
    pub fn get_param(&self, name: &str) -> (r: Option<&str>)
        ensures
            match lookup(self.params_view(), bytes_of(name)) {
                Some(rg) => r is Some && bytes_of(r.unwrap()) == self.path_view().subrange(rg.0, rg.1),
                None => r is None,
            },
    {
        proof {
            use_type_invariant(self);
        }
        self.captures.get_param(self.path.as_str(), name)
    }
}

/// What a request is handed to: the handler of the first matching route
/// (with its captures), the fallback handler, or nobody.
pub enum Dispatch<'a, H> {
    Matched(&'a H, CaptureOwned),
    Fallback(&'a H),
    NotFound,
}

/// A router whose routes stand for handlers, with an optional fallback.
pub struct SimpleRouter<H> {
    router: Router,
    effects: Vec<H>,
    default: Option<H>,
}

impl<H> SimpleRouter<H> {
    /// Each route's data index is its own position, and names one handler.
    pub closed spec fn wf(&self) -> bool {
        &&& self.effects@.len() == self.router.routes().len()
        &&& forall|i: int|
            0 <= i < self.effects@.len() ==> (#[trigger] self.router.routes()[i]).data_index == i
    }

    /// The routes in registration order.
    pub closed spec fn routes(&self) -> Seq<Route> {
        self.router.routes()
    }

    /// The handler of each route, by position.
    pub closed spec fn handlers(&self) -> Seq<H> {
        self.effects@
    }

    /// The fallback handler.
    pub closed spec fn fallback(&self) -> Option<H> {
        self.default
    }

    /// A router without routes or fallback.
    pub fn new() -> (r: Self)
        ensures
            r.routes() == Seq::<Route>::empty(),
            r.handlers() == Seq::<H>::empty(),
            r.fallback() is None,
            r.wf(),
    {
        SimpleRouter { effects: Vec::new(), default: None, router: Router::new() }
    }

    /// Makes `h` the handler of requests that no route matches.
    pub fn set_default(&mut self, h: H)
        requires
            old(self).wf(),
        ensures
            final(self).wf(),
            final(self).fallback() == Some(h),
            final(self).routes() == old(self).routes(),
            final(self).handlers() == old(self).handlers(),
    {
        self.default = Some(h);
    }

    /// Registers `h` for `methods` on `pattern`, which may end in a tail
    /// wildcard.
    pub fn add_route(&mut self, methods: &[Method], pattern: &'static str, h: H)
        requires
            old(self).wf(),
            bytes_of(pattern).len() >= 1,
            bytes_of(pattern)[0] == 47u8,
        ensures
            final(self).wf(),
            final(self).routes().len() == old(self).routes().len() + 1,
            final(self).routes().subrange(0, old(self).routes().len() as int) == old(self).routes(),
            compiled(
                final(self).routes()[old(self).routes().len() as int],
                bytes_of(pattern),
                methods@,
                old(self).routes().len() as usize,
            ),
            final(self).handlers() == old(self).handlers().push(h),
            final(self).fallback() == old(self).fallback(),
    {
        let idx = self.effects.len();
        self.router.add_route(methods, pattern, idx, true);
        self.effects.push(h);
        proof {
            let old_routes = old(self).router.routes();
            assert forall|i: int| 0 <= i < self.effects@.len() implies (
            #[trigger] self.router.routes()[i]).data_index == i by {
                if i < old_routes.len() {
                    assert(self.router.routes()[i] == self.router.routes().subrange(
                        0,
                        old_routes.len() as int,
                    )[i]);
                }
            }
        }
    }

    /// The handler of the first route that accepts `method` and matches
    /// `path`, with the captures of that match.
    pub fn find(&self, method: &Method, path: &str) -> (r: Option<(&H, CaptureOwned)>)
        requires
            self.wf(),
            bytes_of(path).len() >= 1,
            bytes_of(path)[0] == 47u8,
        ensures
            match first_match(self.routes(), *method, bytes_of(path)) {
                Some(i) => r is Some && *r.unwrap().0 == self.handlers()[i] && r.unwrap().1.path_view()
                    == bytes_of(path) && r.unwrap().1.params_view() == self.routes()[i].captured(
                    bytes_of(path),
                ),
                None => r is None,
            },
    {
        let mut captures = Captures::empty();
        proof {
            assert(captures.valid_for(bytes_of(path)));
        }
        let idx = match self.router.find(&mut captures, method, path) {
            Some(i) => i,
            None => return None,
        };
        let owned = path.to_owned();
        proof {
            lemma_first_match_from(self.routes(), *method, bytes_of(path), 0);
            assert(string_bytes(&owned) == bytes_of(path));
            assert(captures.params_view() =~= Seq::<(Seq<u8>, int, int)>::empty() + self.routes()[first_match(self.routes(), *method, bytes_of(path)).unwrap()].captured(bytes_of(path)));
        }
        let capture_owned = CaptureOwned { path: owned, captures };
        let f = &self.effects[idx];
        Some((f, capture_owned))
    }

    /// Where a request for `method` on `path` goes: the first matching
    /// route's handler, else the fallback, else nowhere.
    pub fn route(&self, method: &Method, path: &str) -> (r: Dispatch<'_, H>)
        requires
            self.wf(),
            bytes_of(path).len() >= 1,
            bytes_of(path)[0] == 47u8,
        ensures
            match first_match(self.routes(), *method, bytes_of(path)) {
                Some(i) => r is Matched && *r->Matched_0 == self.handlers()[i]
                    && r->Matched_1.path_view() == bytes_of(path)
                    && r->Matched_1.params_view() == self.routes()[i].captured(bytes_of(path)),
                None => match self.fallback() {
                    Some(h) => r is Fallback && *r->Fallback_0 == h,
                    None => r is NotFound,
                },
            },
    {
        match self.find(method, path) {
            Some((h, capture)) => Dispatch::Matched(h, capture),
            None => match &self.default {
                Some(h) => Dispatch::Fallback(h),
                None => Dispatch::NotFound,
            },
        }
    }
}

} // verus!
