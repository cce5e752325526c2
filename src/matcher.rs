use vstd::prelude::*;
use vstd::string::StringSliceAdditionalSpecFns;
use vstd::utf8::*;

verus! {


/// `p` occurs in `s` starting at position `i`.
pub open spec fn occurs_at<A>(s: Seq<A>, p: Seq<A>, i: int) -> bool {
    0 <= i && i + p.len() <= s.len() && s.subrange(i, i + p.len()) == p
}

/// `p` occurs somewhere in `s`.
pub open spec fn occurs_in<A>(s: Seq<A>, p: Seq<A>) -> bool {
    exists|i: int| occurs_at(s, p, i)
}

/// `i` is the leftmost position at which `p` occurs in `s`.
pub open spec fn is_first_occurrence<A>(s: Seq<A>, p: Seq<A>, i: int) -> bool {
    &&& occurs_at(s, p, i)
    &&& forall|j: int| 0 <= j < i ==> !occurs_at(s, p, j)
}

/// The leftmost position at which `p` occurs in `s` (meaningful when `occurs_in(s, p)`).
pub open spec fn first_occurrence<A>(s: Seq<A>, p: Seq<A>) -> int {
    choose|i: int| is_first_occurrence(s, p, i)
}

/// There is at most one leftmost occurrence.
pub proof fn lemma_first_occurrence_unique<A>(s: Seq<A>, p: Seq<A>, i: int)
    requires
        is_first_occurrence(s, p, i),
    ensures
        first_occurrence(s, p) == i,
{
    let k = first_occurrence(s, p);
    assert(is_first_occurrence(s, p, k));
    if k < i {
        assert(!occurs_at(s, p, k));
    } else if i < k {
        assert(!occurs_at(s, p, i));
    }
}

proof fn lemma_first_below<A>(s: Seq<A>, p: Seq<A>, k: int)
    requires
        occurs_at(s, p, k),
    ensures
        exists|i: int| is_first_occurrence(s, p, i),
    decreases k,
{
    if exists|j: int| 0 <= j < k && occurs_at(s, p, j) {
        let j = choose|j: int| 0 <= j < k && occurs_at(s, p, j);
        lemma_first_below(s, p, j);
    } else {
        assert(is_first_occurrence(s, p, k));
    }
}

/// Whenever `p` occurs in `s`, `first_occurrence` names its leftmost occurrence.
pub proof fn lemma_first_occurrence<A>(s: Seq<A>, p: Seq<A>)
    requires
        occurs_in(s, p),
    ensures
        is_first_occurrence(s, p, first_occurrence(s, p)),
{
    let k = choose|k: int| occurs_at(s, p, k);
    lemma_first_below(s, p, k);
}

/// The characters of `s`, one element each.
pub(crate) fn chars_of(s: &str) -> (r: Vec<char>)
    ensures
        r@ == s@,
{
    let mut r: Vec<char> = Vec::new();
    let mut it = s.chars();
    for c in iter: it
        invariant
            r@ == iter.seq().take(iter.index() as int),
    {
        r.push(c);
    }
    r
}

/// Whether `p` occurs in `s` at position `i`.
pub(crate) fn chars_match_at(s: &Vec<char>, p: &Vec<char>, i: usize) -> (r: bool)
    requires
        i + p.len() <= s.len(),
    ensures
        r == occurs_at(s@, p@, i as int),
{
    let mut k: usize = 0;
    while k < p.len()
        invariant
            i + p.len() <= s.len(),
            k <= p.len(),
            forall|t: int| 0 <= t < k ==> s@[i + t] == p@[t],
        decreases p.len() - k,
    {
        if s[i + k] != p[k] {
            assert(s@.subrange(i as int, i + p.len())[k as int] != p@[k as int]);
            return false;
        }
        k = k + 1;
    }
    assert(s@.subrange(i as int, i + p.len()) =~= p@);
    true
}

/// The leftmost position at which `p` occurs in `s`, if any.
pub(crate) fn first_char_index(s: &Vec<char>, p: &Vec<char>) -> (r: Option<usize>)
    ensures
        match r {
            Some(i) => is_first_occurrence(s@, p@, i as int),
            None => !occurs_in(s@, p@),
        },
{
    if p.len() > s.len() {
        return None;
    }
    let last = s.len() - p.len();
    let mut i: usize = 0;
    loop
        invariant
            last == s.len() - p.len(),
            p.len() <= s.len(),
            i <= last,
            forall|j: int| 0 <= j < i ==> !occurs_at(s@, p@, j),
        decreases last - i,
    {
        if chars_match_at(s, p, i) {
            return Some(i);
        }
        if i == last {
            return None;
        }
        i = i + 1;
    }
}

/// Whether `p` occurs in `s` at byte offset `i`.
fn bytes_match_at(s: &[u8], p: &[u8], i: usize) -> (r: bool)
    requires
        i + p@.len() <= s@.len(),
    ensures
        r == occurs_at(s@, p@, i as int),
{
    let n = s.len();
    let mut k: usize = 0;
    while k < p.len()
        invariant
            n == s@.len(),
            i + p@.len() <= s@.len(),
            k <= p@.len(),
            forall|t: int| 0 <= t < k ==> s@[i + t] == p@[t],
        decreases p@.len() - k,
    {
        if s[i + k] != p[k] {
            assert(s@.subrange(i as int, i + p@.len())[k as int] != p@[k as int]);
            return false;
        }
        k = k + 1;
    }
    assert(s@.subrange(i as int, i + p@.len()) =~= p@);
    true
}

/// The leftmost byte offset at which `p` occurs in `s`, if any.
fn first_byte_index(s: &[u8], p: &[u8]) -> (r: Option<usize>)
    ensures
        match r {
            Some(i) => is_first_occurrence(s@, p@, i as int),
            None => !occurs_in(s@, p@),
        },
{
    if p.len() > s.len() {
        return None;
    }
    let last = s.len() - p.len();
    let mut i: usize = 0;
    loop
        invariant
            last == s@.len() - p@.len(),
            p@.len() <= s@.len(),
            i <= last,
            forall|j: int| 0 <= j < i ==> !occurs_at(s@, p@, j),
        decreases last - i,
    {
        if bytes_match_at(s, p, i) {
            return Some(i);
        }
        if i == last {
            return None;
        }
        i = i + 1;
    }
}

/// The UTF-8 encoding of a concatenation is the concatenation of the encodings.
pub(crate) proof fn lemma_encode_concat(a: Seq<char>, b: Seq<char>)
    ensures
        encode_utf8(a + b) == encode_utf8(a) + encode_utf8(b),
    decreases a.len(),
{
    if a.len() == 0 {
        assert(a + b =~= b);
        assert(encode_utf8(a) + encode_utf8(b) =~= encode_utf8(b));
    } else {
        lemma_encode_concat(a.drop_first(), b);
        assert((a + b).drop_first() =~= a.drop_first() + b);
        assert((a + b)[0] == a[0]);
        assert(encode_utf8(a + b) =~= encode_utf8(a) + encode_utf8(b));
    }
}

/// A text is empty exactly when its encoding is.
pub(crate) proof fn lemma_encode_empty(a: Seq<char>)
    ensures
        (encode_utf8(a).len() == 0) == (a.len() == 0),
{
    if a.len() > 0 {
        assert(encode_scalar(a[0] as u32).len() >= 1);
    }
}

/// When valid UTF-8 `p` starts valid UTF-8 `t`, the end of `p` is a character
/// boundary of `t`.
proof fn lemma_prefix_ends_on_boundary(t: Seq<u8>, p: Seq<u8>)
    requires
        valid_utf8(t),
        valid_utf8(p),
        p.len() <= t.len(),
        t.subrange(0, p.len() as int) == p,
    ensures
        is_char_boundary(t, p.len() as int),
    decreases p.len(),
{
    if p.len() > 0 {
        assert(t[0] == t.subrange(0, p.len() as int)[0]);
        let l = length_of_first_scalar(p);
        assert(length_of_first_scalar(t) == l);
        assert(forall|k: int| 0 <= k < p.len() ==> t[k] == t.subrange(0, p.len() as int)[k]);
        let tt = pop_first_scalar(t);
        let pp = pop_first_scalar(p);
        assert(tt.subrange(0, pp.len() as int) =~= pp);
        lemma_prefix_ends_on_boundary(tt, pp);
    }
}

/// In valid UTF-8, a position strictly inside the text is a character boundary
/// exactly when the byte there is not a continuation byte; the two ends always are.
proof fn lemma_boundary_at(b: Seq<u8>, i: int)
    requires
        valid_utf8(b),
        0 <= i <= b.len(),
    ensures
        is_char_boundary(b, i) <==> (i == b.len() || !is_continuation_byte(b[i])),
{
    is_char_boundary_start_end_of_seq(b);
    if i < b.len() {
        is_char_boundary_iff_not_is_continuation_byte(b, i);
    }
}

/// Two boundaries `a <= c` of `b` give the boundary `c - a` of the part of `b` from `a` on.
proof fn lemma_boundary_in_suffix(b: Seq<u8>, a: int, c: int)
    requires
        valid_utf8(b),
        0 <= a <= c <= b.len(),
        is_char_boundary(b, a),
        is_char_boundary(b, c),
    ensures
        valid_utf8(b.subrange(a, b.len() as int)),
        is_char_boundary(b.subrange(a, b.len() as int), c - a),
{
    let t = b.subrange(a, b.len() as int);
    valid_utf8_split(b, a);
    lemma_boundary_at(b, c);
    lemma_boundary_at(t, c - a);
    if c < b.len() {
        assert(t[c - a] == b[c]);
    }
}

/// Both ends of the leftmost occurrence of valid UTF-8 `p` in valid UTF-8 `b`
/// are character boundaries of `b`.
proof fn lemma_occurrence_on_boundaries(b: Seq<u8>, p: Seq<u8>, m: int)
    requires
        valid_utf8(b),
        valid_utf8(p),
        is_first_occurrence(b, p, m),
    ensures
        is_char_boundary(b, m),
        is_char_boundary(b, m + p.len()),
{
    if p.len() == 0 {
        assert(b.subrange(0, 0) =~= p);
        assert(occurs_at(b, p, 0));
        is_char_boundary_start_end_of_seq(b);
    } else {
        lemma_boundary_at(p, 0);
        is_char_boundary_start_end_of_seq(p);
        assert(b[m] == b.subrange(m, m + p.len())[0]);
        lemma_boundary_at(b, m);
        lemma_boundary_in_suffix(b, m, m);
        let t = b.subrange(m, b.len() as int);
        assert(t.subrange(0, p.len() as int) =~= p);
        lemma_prefix_ends_on_boundary(t, p);
        lemma_boundary_at(t, p.len() as int);
        lemma_boundary_at(b, m + p.len());
        if m + p.len() < b.len() {
            assert(t[p.len() as int] == b[m + p.len()]);
        }
    }
}

/// The part of `s` between the byte offsets `a` and `c`, both character boundaries.
pub(crate) fn byte_slice(s: &str, a: usize, c: usize) -> (r: &str)
    requires
        a <= c <= s.spec_bytes().len(),
        is_char_boundary(s.spec_bytes(), a as int),
        is_char_boundary(s.spec_bytes(), c as int),
    ensures
        r.spec_bytes() == s.spec_bytes().subrange(a as int, c as int),
{
    let ghost b = s.spec_bytes();
    proof {
        encode_utf8_valid_utf8(s@);
        lemma_boundary_in_suffix(b, a as int, c as int);
    }
    let (_, tail) = s.split_at(a);
    let (mid, _) = tail.split_at(c - a);
    assert(mid.spec_bytes() =~= b.subrange(a as int, c as int));
    mid
}

/// A located span of a text: `length` bytes starting at byte offset `start` of
/// the text's UTF-8 encoding.
#[derive(Debug, Clone, Copy, PartialEq, Eq, PartialOrd, Ord)]
pub struct Range {
    /// Byte offset of the span's first byte.
    pub start: usize,
    /// Number of bytes in the span.
    pub length: usize,
}

impl Range {
    /// The span of `length` bytes that starts at `start`.
    pub fn new(start: usize, length: usize) -> (r: Self)
        ensures
            r.start == start,
            r.length == length,
    {
        Range { start, length }
    }

    /// Byte offset just past the span's last byte.
    pub open spec fn spec_end(&self) -> int {
        self.start + self.length
    }

    /// Byte offset just past the span's last byte.
    pub fn end(&self) -> (r: usize)
        requires
            self.start + self.length <= usize::MAX,
        ensures
            r == self.spec_end(),
    {
        self.start + self.length
    }

    /// The span as a range of byte offsets, for slicing.
    pub fn as_range(&self) -> (r: std::ops::Range<usize>)
        requires
            self.start + self.length <= usize::MAX,
        ensures
            r.start == self.start,
            r.end == self.spec_end(),
    {
        std::ops::Range { start: self.start, end: self.end() }
    }

    /// The leftmost exact occurrence of `search` in `source`, if there is one.
    /// Both ends of the span found are character boundaries of `source`.
    pub fn find_exact(source: &str, search: &str) -> (r: Option<Self>)
        ensures
            match r {
                Some(m) => {
                    &&& is_first_occurrence(source.spec_bytes(), search.spec_bytes(), m.start as int)
                    &&& m.length == search.spec_bytes().len()
                    &&& is_char_boundary(source.spec_bytes(), m.start as int)
                    &&& is_char_boundary(source.spec_bytes(), m.spec_end())
                },
                None => !occurs_in(source.spec_bytes(), search.spec_bytes()),
            },
    {
        let s = source.as_bytes();
        let p = search.as_bytes();
        match first_byte_index(s, p) {
            Some(i) => {
                proof {
                    encode_utf8_valid_utf8(source@);
                    encode_utf8_valid_utf8(search@);
                    lemma_occurrence_on_boundaries(s@, p@, i as int);
                }
                Some(Range::new(i, p.len()))
            },
            None => None,
        }
    }
}

} // verus!
