use vstd::prelude::*;
use vstd::string::StrSliceExecFns;
use vstd::string::StringExecFns;
use vstd::utf8::*;

use std::sync::Arc;

use crate::matcher::{
    byte_slice, chars_match_at, chars_of, first_occurrence, is_first_occurrence,
    lemma_encode_concat, lemma_encode_empty, lemma_first_occurrence, lemma_first_occurrence_unique,
    occurs_at, occurs_in,
};
use crate::response::ToolResponseData;

pub use crate::matcher::Range;

verus! {

/// The operation applied relative to the located text.
#[derive(Debug, Clone, Copy, PartialEq, Eq, Structural)]
pub enum Operation {
    /// Insert the content before the located text.
    Prepend,
    /// Insert the content after the located text.
    Append,
    /// Put the content in place of the located text.
    Replace,
    /// Exchange the located text with the first occurrence of the content.
    Swap,
}

/// Why a patch could not be applied.
#[derive(Debug, Clone, PartialEq, Eq)]
pub enum PatchError {
    /// The search text does not occur in the source.
    NoMatch(String),
    /// The swap target (the content of a swap) does not occur in the source.
    NoSwapTarget(String),
}

impl PatchError {
    /// A sentence that tells the user what went wrong.
    pub fn message(&self) -> (r: String)
        ensures
            match self {
                PatchError::NoMatch(q) => r@ == "Could not find match for search text: "@ + q@,
                PatchError::NoSwapTarget(q) => r@ == "Could not find swap target text: "@ + q@,
            },
    {
        match self {
            PatchError::NoMatch(q) => concat2("Could not find match for search text: ", q.as_str()),
            PatchError::NoSwapTarget(q) => concat2("Could not find swap target text: ", q.as_str()),
        }
    }
}

// The spec functions below describe texts by their UTF-8 bytes, and positions
// by byte offsets into them.

/// `s` with the bytes in `[start, end)` replaced by `c`.
pub open spec fn splice(s: Seq<u8>, start: int, end: int, c: Seq<u8>) -> Seq<u8> {
    s.subrange(0, start) + c + s.subrange(end, s.len() as int)
}

/// `s` with the spans `[a_start, a_end)` and `[b_start, b_end)` traded, where
/// the first lies wholly before the second; the text around and between them is kept.
pub open spec fn swap_spans(s: Seq<u8>, a_start: int, a_end: int, b_start: int, b_end: int) -> Seq<u8> {
    s.subrange(0, a_start) + s.subrange(b_start, b_end) + s.subrange(a_end, b_start)
        + s.subrange(a_start, a_end) + s.subrange(b_end, s.len() as int)
}

/// The spans `[s1, e1)` and `[s2, e2)` overlap: one starts strictly inside the other
/// (or both start at the same place, with the first one non-empty).
pub open spec fn ranges_overlap(s1: int, e1: int, s2: int, e2: int) -> bool {
    (s1 <= s2 && e1 > s2) || (s2 <= s1 && e2 > s1)
}

/// The result of an operation when the search text is empty: it acts on the
/// edges of the whole text.
pub open spec fn edge_result(s: Seq<u8>, op: Operation, c: Seq<u8>) -> Seq<u8> {
    match op {
        Operation::Append => s + c,
        Operation::Prepend => c + s,
        Operation::Replace => c,
        Operation::Swap => s,
    }
}

/// The patch succeeds: the search text is empty, or it occurs and, for a swap,
/// so does the content.
pub open spec fn patch_succeeds(s: Seq<u8>, p: Seq<u8>, op: Operation, c: Seq<u8>) -> bool {
    p.len() == 0 || (occurs_in(s, p) && (op != Operation::Swap || occurs_in(s, c)))
}

/// The text that results from patching `s` (when `patch_succeeds`).
pub open spec fn patched(s: Seq<u8>, p: Seq<u8>, op: Operation, c: Seq<u8>) -> Seq<u8> {
    if p.len() == 0 {
        edge_result(s, op, c)
    } else {
        let ms = first_occurrence(s, p);
        let me = ms + p.len();
        match op {
            Operation::Prepend => splice(s, ms, ms, c),
            Operation::Append => splice(s, me, me, c),
            Operation::Replace => splice(s, ms, me, c),
            Operation::Swap => {
                let ts = first_occurrence(s, c);
                let te = ts + c.len();
                if ranges_overlap(ms, me, ts, te) {
                    splice(s, ms, me, c)
                } else if ms < ts {
                    swap_spans(s, ms, me, ts, te)
                } else {
                    swap_spans(s, ts, te, ms, me)
                }
            },
        }
    }
}

fn concat2(a: &str, b: &str) -> (r: String)
    ensures
        r@ == a@ + b@,
        encode_utf8(r@) == encode_utf8(a@) + encode_utf8(b@),
{
    let mut r = String::new();
    r.append(a);
    r.append(b);
    proof {
        lemma_encode_concat(a@, b@);
    }
    assert(r@ =~= a@ + b@);
    r
}

fn concat3(a: &str, b: &str, c: &str) -> (r: String)
    ensures
        encode_utf8(r@) == encode_utf8(a@) + encode_utf8(b@) + encode_utf8(c@),
{
    let mut r = String::new();
    r.append(a);
    r.append(b);
    r.append(c);
    proof {
        lemma_encode_concat(a@, b@);
        lemma_encode_concat(a@ + b@, c@);
    }
    assert(r@ =~= a@ + b@ + c@);
    r
}

fn concat5(a: &str, b: &str, c: &str, d: &str, e: &str) -> (r: String)
    ensures
        encode_utf8(r@) == encode_utf8(a@) + encode_utf8(b@) + encode_utf8(c@) + encode_utf8(d@)
            + encode_utf8(e@),
{
    let mut r = String::new();
    r.append(a);
    r.append(b);
    r.append(c);
    r.append(d);
    r.append(e);
    proof {
        lemma_encode_concat(a@, b@);
        lemma_encode_concat(a@ + b@, c@);
        lemma_encode_concat(a@ + b@ + c@, d@);
        lemma_encode_concat(a@ + b@ + c@ + d@, e@);
    }
    assert(r@ =~= a@ + b@ + c@ + d@ + e@);
    r
}

/// Applies `operation` to `source` at the leftmost occurrence of `search`.
///
/// Offsets are taken in the texts' UTF-8 bytes, and the contract speaks of
/// those bytes; a text is determined by its encoding. An empty `search` acts
/// on the edges of the whole text. For a swap, `content` is a second text to
/// locate; when the two located spans overlap, the swap is carried out as a
/// replacement.
pub fn apply_replacement(source: String, search: &str, operation: &Operation, content: &str) -> (r:
    Result<String, PatchError>)
    ensures
        r is Ok <==> patch_succeeds(
            encode_utf8(source@),
            encode_utf8(search@),
            *operation,
            encode_utf8(content@),
        ),
        !occurs_in(encode_utf8(source@), encode_utf8(search@)) ==> (r matches Err(
            PatchError::NoMatch(q),
        ) && q@ == search@),
        match r {
            Ok(t) => encode_utf8(t@) == patched(
                encode_utf8(source@),
                encode_utf8(search@),
                *operation,
                encode_utf8(content@),
            ),
            Err(PatchError::NoMatch(q)) => {
                &&& q@ == search@
                &&& search@.len() > 0
                &&& !occurs_in(encode_utf8(source@), encode_utf8(search@))
            },
            Err(PatchError::NoSwapTarget(q)) => {
                &&& q@ == content@
                &&& *operation == Operation::Swap
                &&& search@.len() > 0
                &&& occurs_in(encode_utf8(source@), encode_utf8(search@))
                &&& !occurs_in(encode_utf8(source@), encode_utf8(content@))
            },
        },
{
    let ghost sb = encode_utf8(source@);
    let ghost pb = encode_utf8(search@);
    let ghost cb = encode_utf8(content@);
    proof {
        lemma_encode_empty(search@);
        encode_utf8_valid_utf8(source@);
        is_char_boundary_start_end_of_seq(sb);
    }
    if search.is_empty() {
        proof {
            assert(sb.subrange(0, 0) =~= pb);
            assert(occurs_at(sb, pb, 0));
        }
        return match operation {
            Operation::Append => Ok(concat2(source.as_str(), content)),
            Operation::Prepend => Ok(concat2(content, source.as_str())),
            Operation::Replace => Ok(String::from_str(content)),
            Operation::Swap => Ok(source),
        };
    }
    let s = source.as_str();
    let n = s.as_bytes().len();
    let patch = match Range::find_exact(s, search) {
        Some(m) => m,
        None => {
            return Err(PatchError::NoMatch(String::from_str(search)));
        },
    };
    proof {
        lemma_first_occurrence_unique(sb, pb, patch.start as int);
    }
    let ms = patch.start;
    let me = patch.end();
    match operation {
        Operation::Prepend => {
            let r = concat3(byte_slice(s, 0, ms), content, byte_slice(s, ms, n));
            assert(encode_utf8(r@) =~= splice(sb, ms as int, ms as int, cb));
            Ok(r)
        },
        Operation::Append => {
            let r = concat3(byte_slice(s, 0, me), content, byte_slice(s, me, n));
            assert(encode_utf8(r@) =~= splice(sb, me as int, me as int, cb));
            Ok(r)
        },
        Operation::Replace => {
            let r = concat3(byte_slice(s, 0, ms), content, byte_slice(s, me, n));
            assert(encode_utf8(r@) =~= splice(sb, ms as int, me as int, cb));
            Ok(r)
        },
        Operation::Swap => {
            let target = match Range::find_exact(s, content) {
                Some(m) => m,
                None => {
                    return Err(PatchError::NoSwapTarget(String::from_str(content)));
                },
            };
            proof {
                lemma_first_occurrence_unique(sb, cb, target.start as int);
            }
            let ts = target.start;
            let te = target.end();
            if (ms <= ts && me > ts) || (ts <= ms && te > ms) {
                let r = concat3(byte_slice(s, 0, ms), content, byte_slice(s, me, n));
                assert(encode_utf8(r@) =~= splice(sb, ms as int, me as int, cb));
                Ok(r)
            } else if ms < ts {
                let r = concat5(
                    byte_slice(s, 0, ms),
                    content,
                    byte_slice(s, me, ts),
                    byte_slice(s, ms, me),
                    byte_slice(s, te, n),
                );
                assert(sb.subrange(ts as int, te as int) == cb);
                assert(encode_utf8(r@) =~= swap_spans(sb, ms as int, me as int, ts as int, te as int));
                Ok(r)
            } else {
                let r = concat5(
                    byte_slice(s, 0, ts),
                    byte_slice(s, ms, me),
                    byte_slice(s, te, ms),
                    content,
                    byte_slice(s, me, n),
                );
                assert(sb.subrange(ms as int, me as int) == pb);
                assert(encode_utf8(r@) =~= swap_spans(sb, ts as int, te as int, ms as int, me as int));
                Ok(r)
            }
        },
    }
}

/// `p` occurs in `s` at exactly one position.
pub open spec fn occurs_once(s: Seq<u8>, p: Seq<u8>) -> bool {
    &&& occurs_in(s, p)
    &&& forall|i: int, j: int| occurs_at(s, p, i) && occurs_at(s, p, j) ==> i == j
}

/// Replacing a text that occurs exactly once by itself gives back the source.
pub proof fn lemma_replace_with_self(s: Seq<u8>, p: Seq<u8>)
    requires
        occurs_once(s, p),
    ensures
        patch_succeeds(s, p, Operation::Replace, p),
        patched(s, p, Operation::Replace, p) == s,
{
    if p.len() == 0 {
        if s.len() > 0 {
            assert(s.subrange(0, 0) =~= p);
            assert(s.subrange(1, 1) =~= p);
            assert(occurs_at(s, p, 0) && occurs_at(s, p, 1));
        }
        assert(s =~= p);
    } else {
        lemma_first_occurrence(s, p);
        let ms = first_occurrence(s, p);
        assert(splice(s, ms, ms + p.len(), p) =~= s);
    }
}

/// Appending after a non-empty search text that occurs keeps the source up to
/// and including its first occurrence, follows it with the content, and then
/// with the rest of the source.
pub proof fn lemma_append_after_first_occurrence(s: Seq<u8>, p: Seq<u8>, c: Seq<u8>)
    requires
        p.len() > 0,
        occurs_in(s, p),
    ensures
        patch_succeeds(s, p, Operation::Append, c),
        ({
            let r = patched(s, p, Operation::Append, c);
            let me = first_occurrence(s, p) + p.len();
            &&& is_first_occurrence(s, p, first_occurrence(s, p))
            &&& r.subrange(0, me) == s.subrange(0, me)
            &&& r.subrange(me, me + c.len()) == c
            &&& r.subrange(me + c.len(), r.len() as int) == s.subrange(me, s.len() as int)
        }),
{
    lemma_first_occurrence(s, p);
    let r = patched(s, p, Operation::Append, c);
    let me = first_occurrence(s, p) + p.len();
    assert(r.subrange(0, me) =~= s.subrange(0, me));
    assert(r.subrange(me, me + c.len()) =~= c);
    assert(r.subrange(me + c.len(), r.len() as int) =~= s.subrange(me, s.len() as int));
}

/// Prepending before a non-empty search text that occurs keeps the source up to
/// its first occurrence, follows it with the content, and then with the rest of
/// the source from that occurrence on.
pub proof fn lemma_prepend_before_first_occurrence(s: Seq<u8>, p: Seq<u8>, c: Seq<u8>)
    requires
        p.len() > 0,
        occurs_in(s, p),
    ensures
        patch_succeeds(s, p, Operation::Prepend, c),
        ({
            let r = patched(s, p, Operation::Prepend, c);
            let ms = first_occurrence(s, p);
            &&& is_first_occurrence(s, p, ms)
            &&& r.subrange(0, ms) == s.subrange(0, ms)
            &&& r.subrange(ms, ms + c.len()) == c
            &&& r.subrange(ms + c.len(), r.len() as int) == s.subrange(ms, s.len() as int)
        }),
{
    lemma_first_occurrence(s, p);
    let r = patched(s, p, Operation::Prepend, c);
    let ms = first_occurrence(s, p);
    assert(r.subrange(0, ms) =~= s.subrange(0, ms));
    assert(r.subrange(ms, ms + c.len()) =~= c);
    assert(r.subrange(ms + c.len(), r.len() as int) =~= s.subrange(ms, s.len() as int));
}

/// The first occurrences of `a` and `b` in `s` exist and do not overlap.
pub open spec fn disjoint_first_occurrences(s: Seq<u8>, a: Seq<u8>, b: Seq<u8>) -> bool {
    &&& a.len() > 0
    &&& b.len() > 0
    &&& occurs_in(s, a)
    &&& occurs_in(s, b)
    &&& !ranges_overlap(
        first_occurrence(s, a),
        first_occurrence(s, a) + a.len(),
        first_occurrence(s, b),
        first_occurrence(s, b) + b.len(),
    )
}

/// After swapping `a` with `b` in `s`, the first occurrences of `b` and `a` in
/// the result are exactly where the swap put them.
pub open spec fn swap_keeps_spans(s: Seq<u8>, a: Seq<u8>, b: Seq<u8>) -> bool {
    let t = patched(s, a, Operation::Swap, b);
    let ms = first_occurrence(s, a);
    let me = ms + a.len();
    let ts = first_occurrence(s, b);
    let te = ts + b.len();
    if ms < ts {
        is_first_occurrence(t, b, ms) && is_first_occurrence(t, a, ms + b.len() + (ts - me))
    } else {
        is_first_occurrence(t, a, ts) && is_first_occurrence(t, b, ts + a.len() + (ms - te))
    }
}

/// Swapping `a` with `b` and then `b` with `a` gives back the source, when the
/// first occurrences are disjoint and the intermediate text still locates the
/// two exchanged spans first.
pub proof fn lemma_swap_involution(s: Seq<u8>, a: Seq<u8>, b: Seq<u8>)
    requires
        disjoint_first_occurrences(s, a, b),
        swap_keeps_spans(s, a, b),
    ensures
        patch_succeeds(s, a, Operation::Swap, b),
        patch_succeeds(patched(s, a, Operation::Swap, b), b, Operation::Swap, a),
        patched(patched(s, a, Operation::Swap, b), b, Operation::Swap, a) == s,
{
    lemma_first_occurrence(s, a);
    lemma_first_occurrence(s, b);
    let t = patched(s, a, Operation::Swap, b);
    let ms = first_occurrence(s, a);
    let me = ms + a.len();
    let ts = first_occurrence(s, b);
    let te = ts + b.len();
    assert(s.subrange(ms, me) == a);
    assert(s.subrange(ts, te) == b);
    if ms < ts {
        let pa = ms + b.len() + (ts - me);
        lemma_first_occurrence_unique(t, b, ms);
        lemma_first_occurrence_unique(t, a, pa);
        assert(t =~= s.subrange(0, ms) + b + s.subrange(me, ts) + a + s.subrange(te, s.len() as int));
        assert(t.subrange(0, ms) =~= s.subrange(0, ms));
        assert(t.subrange(ms + b.len(), pa) =~= s.subrange(me, ts));
        assert(t.subrange(pa + a.len(), t.len() as int) =~= s.subrange(te, s.len() as int));
        assert(patched(t, b, Operation::Swap, a) =~= s);
    } else {
        let pb = ts + a.len() + (ms - te);
        lemma_first_occurrence_unique(t, a, ts);
        lemma_first_occurrence_unique(t, b, pb);
        assert(t =~= s.subrange(0, ts) + a + s.subrange(te, ms) + b + s.subrange(me, s.len() as int));
        assert(t.subrange(0, ts) =~= s.subrange(0, ts));
        assert(t.subrange(ts + a.len(), pb) =~= s.subrange(te, ms));
        assert(t.subrange(pb + b.len(), t.len() as int) =~= s.subrange(me, s.len() as int));
        assert(patched(t, b, Operation::Swap, a) =~= s);
    }
}

/// A swap whose two located spans overlap gives the same text as a replacement.
pub proof fn lemma_overlapping_swap_is_replace(s: Seq<u8>, p: Seq<u8>, c: Seq<u8>)
    requires
        p.len() > 0,
        occurs_in(s, p),
        occurs_in(s, c),
        ranges_overlap(
            first_occurrence(s, p),
            first_occurrence(s, p) + p.len(),
            first_occurrence(s, c),
            first_occurrence(s, c) + c.len(),
        ),
    ensures
        patch_succeeds(s, p, Operation::Swap, c),
        patch_succeeds(s, p, Operation::Replace, c),
        patched(s, p, Operation::Swap, c) == patched(s, p, Operation::Replace, c),
{
}

/// With an empty search text, a replacement gives the content alone.
pub proof fn lemma_empty_search_replaces_all(s: Seq<u8>, c: Seq<u8>)
    ensures
        patch_succeeds(s, Seq::empty(), Operation::Replace, c),
        patched(s, Seq::empty(), Operation::Replace, c) == c,
{
}

/// A request to patch one file.
#[derive(Debug, Clone, PartialEq, Eq)]
pub struct Input {
    /// The file to modify.
    pub path: String,
    /// The text to locate; empty to act on the edges of the whole file.
    pub search: String,
    /// What to do at the located text.
    pub operation: Operation,
    /// The text to insert, or for a swap, the second text to locate.
    pub content: String,
}

impl Input {
    /// The file's new text, given its current text `source`.
    pub fn apply_to(&self, source: String) -> (r: Result<String, PatchError>)
        ensures
            r is Ok <==> patch_succeeds(
                encode_utf8(source@),
                encode_utf8(self.search@),
                self.operation,
                encode_utf8(self.content@),
            ),
            match r {
                Ok(t) => encode_utf8(t@) == patched(
                    encode_utf8(source@),
                    encode_utf8(self.search@),
                    self.operation,
                    encode_utf8(self.content@),
                ),
                Err(PatchError::NoMatch(q)) => {
                    &&& q@ == self.search@
                    &&& !occurs_in(encode_utf8(source@), encode_utf8(self.search@))
                },
                Err(PatchError::NoSwapTarget(q)) => {
                    &&& q@ == self.content@
                    &&& self.operation == Operation::Swap
                    &&& occurs_in(encode_utf8(source@), encode_utf8(self.search@))
                    &&& !occurs_in(encode_utf8(source@), encode_utf8(self.content@))
                },
            },
    {
        apply_replacement(source, self.search.as_str(), &self.operation, self.content.as_str())
    }
}

/// `path` relative to `cwd` when it lies below it (it starts with `cwd` and
/// then a separator), else `path` itself.
pub open spec fn display_path(path: Seq<char>, cwd: Seq<char>) -> Seq<char> {
    if cwd.len() > 0 && path.len() > cwd.len() && path.subrange(0, cwd.len() as int) == cwd
        && path[cwd.len() as int] == '/' {
        path.subrange(cwd.len() as int + 1, path.len() as int)
    } else {
        path
    }
}

/// The tool that patches files, over the services `F` that reach storage.
pub struct ApplyPatchJson<F>(pub Arc<F>);

impl<F> ApplyPatchJson<F> {
    /// The tool, working through `input`.
    pub fn new(input: Arc<F>) -> (r: Self)
        ensures
            r.0 == input,
    {
        ApplyPatchJson(input)
    }

    /// How `path` is shown to the user: relative to the working directory
    /// `cwd` when it lies below it, else as it is.
    pub fn format_display_path(&self, path: &str, cwd: &str) -> (r: String)
        ensures
            r@ == display_path(path@, cwd@),
    {
        let p = chars_of(path);
        let c = chars_of(cwd);
        if c.len() > 0 && p.len() > c.len() && chars_match_at(&p, &c, 0) && p[c.len()] == '/' {
            String::from_str(path.substring_char(c.len() + 1, p.len()))
        } else {
            String::from_str(path)
        }
    }

    /// The name under which the tool is offered.
    pub fn tool_name() -> (r: String)
        ensures
            r@ == "forge_tool_fs_patch"@,
    {
        String::from_str("forge_tool_fs_patch")
    }
}

/// The structured data that reports a patch of the file at `path` whose new
/// text is `new_text`: its size in bytes, and the warning, if any, that a check
/// of the new text raised.
pub fn patch_response(path: String, new_text: &str, warning: Option<String>) -> (r: ToolResponseData)
    ensures
        r.wf(),
        r matches ToolResponseData::Patch { path: p, total_chars: Some(n), warning: w, metadata: m }
            && p == path && n == new_text.len() && w == warning && m@.len() == 0,
{
    let n = new_text.len();
    let data = ToolResponseData::patch(path).with_total_chars(n);
    match warning {
        Some(w) => data.with_warning(w),
        None => data,
    }
}

} // verus!
