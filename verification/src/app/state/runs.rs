//! A line of text cut into the runs its delegate lays out: one per mark
//! change, and one per word inside an unmarked stretch, with the find bar's
//! hits as cells of their own. All positions are byte offsets into the
//! line's UTF-8 text.

use vstd::prelude::*;
use vstd::utf8::{
    encode_utf8, encode_utf8_valid_utf8, is_char_boundary, is_char_boundary_iff_not_is_continuation_byte,
    is_char_boundary_start_end_of_seq, valid_utf8, valid_utf8_split,
};

verus! {

/// What a mark does to the text it spans.
#[derive(Debug, Clone, Copy, PartialEq, Eq, Structural)]
pub enum MarkKind {
    Bold,
    Italic,
    Strike,
    Code,
    Link,
    Math,
}

/// A mark over the bytes `start..end` of a block's text; a link's target
/// in `url`.
#[derive(Debug, Clone)]
pub struct Mark {
    pub start: usize,
    pub end: usize,
    pub kind: MarkKind,
    pub url: String,
}

/// One run of a line: its text and how it is drawn. A formula run carries
/// its source text and `math`.
#[derive(Debug)]
pub struct TextRun {
    pub text: String,
    pub bold: bool,
    pub italic: bool,
    pub strike: bool,
    pub code: bool,
    pub link: bool,
    pub url: String,
    pub hit: bool,
    pub math: bool,
}

// ---- where a line may be cut ----

pub open spec fn clamp(v: int, len: int) -> int {
    if v < len { v } else { len }
}

/// Some mark has `v` strictly inside it.
pub open spec fn inside_mark(marks: Seq<Mark>, v: int) -> bool {
    exists|k: int| 0 <= k < marks.len() && #[trigger] marks[k].start < v && v < marks[k].end
}

/// Mark `j` ends (either end, clamped to `len`) at `p`.
pub open spec fn mark_touches(marks: Seq<Mark>, j: int, p: int, len: int) -> bool {
    clamp(marks[j].start as int, len) == p || clamp(marks[j].end as int, len) == p
}

/// One of the first `k` marks ends at `p`.
pub open spec fn marks_touch(marks: Seq<Mark>, k: int, p: int, len: int) -> bool {
    exists|j: int| 0 <= j < k && #[trigger] mark_touches(marks, j, p, len)
}

/// Hit `j` ends (either end, clamped to `len`) at `p`.
pub open spec fn hit_touches(hits: Seq<(usize, usize)>, j: int, p: int, len: int) -> bool {
    clamp(hits[j].0 as int, len) == p || clamp(hits[j].1 as int, len) == p
}

/// One of the first `k` hits ends at `p`.
pub open spec fn hits_touch(hits: Seq<(usize, usize)>, k: int, p: int, len: int) -> bool {
    exists|j: int| 0 <= j < k && #[trigger] hit_touches(hits, j, p, len)
}

/// A mark's end (clamped to the text) that falls on a char boundary.
pub open spec fn mark_bound(b: Seq<u8>, marks: Seq<Mark>, p: int) -> bool {
    is_char_boundary(b, p) && marks_touch(marks, marks.len() as int, p, b.len() as int)
}

/// A hit's end (clamped to the text) that falls on a char boundary and not
/// inside a mark: a mark's span is never cut, so a hit that starts or ends
/// inside one tints the whole mark.
pub open spec fn hit_bound(b: Seq<u8>, marks: Seq<Mark>, hits: Seq<(usize, usize)>, p: int) -> bool {
    is_char_boundary(b, p) && !inside_mark(marks, p) && hits_touch(hits, hits.len() as int, p, b.len() as int)
}

/// A boundary of the line's segments: its ends, and the marks' and hits'
/// ends.
pub open spec fn is_bound(b: Seq<u8>, marks: Seq<Mark>, hits: Seq<(usize, usize)>, p: int) -> bool {
    p == 0 || p == b.len() || mark_bound(b, marks, p) || hit_bound(b, marks, hits, p)
}

fn inside_any_mark(marks: &[Mark], v: usize) -> (r: bool)
    ensures
        r == inside_mark(marks@, v as int),
{
    let mut k: usize = 0;
    while k < marks.len()
        invariant
            k <= marks@.len(),
            forall|j: int| 0 <= j < k ==> !(#[trigger] marks@[j].start < v && v < marks@[j].end),
        decreases marks@.len() - k,
    {
        if marks[k].start < v && v < marks[k].end {
            return true;
        }
        k = k + 1;
    }
    false
}

fn clamp_to(v: usize, len: usize) -> (r: usize)
    ensures
        r == clamp(v as int, len as int),
{
    if v < len { v } else { len }
}

/// Which positions `0..=len` of the text are segment boundaries.
fn bound_flags(text: &str, marks: &[Mark], hits: &[(usize, usize)]) -> (flags: Vec<bool>)
    requires
        encode_utf8(text@).len() < usize::MAX,
    ensures
        flags@.len() == encode_utf8(text@).len() + 1,
        forall|p: int|
            0 <= p <= encode_utf8(text@).len() ==> #[trigger] flags@[p] == is_bound(
                encode_utf8(text@),
                marks@,
                hits@,
                p,
            ),
{
    let ghost b = encode_utf8(text@);
    let len = text.len();
    let mut flags: Vec<bool> = Vec::new();
    while flags.len() <= len
        invariant
            len == b.len(),
            len < usize::MAX,
            flags@.len() <= len + 1,
            forall|p: int| 0 <= p < flags@.len() ==> #[trigger] flags@[p] == (p == 0 || p == len),
        decreases len + 1 - flags@.len(),
    {
        let at = flags.len();
        flags.push(at == 0 || at == len);
    }
    let mut k: usize = 0;
    while k < marks.len()
        invariant
            len == b.len(),
            b == encode_utf8(text@),
            flags@.len() == len + 1,
            k <= marks@.len(),
            forall|p: int|
                0 <= p <= len ==> #[trigger] flags@[p] == (p == 0 || p == len || (is_char_boundary(b, p)
                    && marks_touch(marks@, k as int, p, len as int))),
        decreases marks@.len() - k,
    {
        let a = clamp_to(marks[k].start, len);
        let z = clamp_to(marks[k].end, len);
        let ba = text.is_char_boundary(a);
        let bz = text.is_char_boundary(z);
        if ba {
            flags.set(a, true);
        }
        if bz {
            flags.set(z, true);
        }
        proof {
            assert forall|p: int| 0 <= p <= len implies #[trigger] flags@[p] == (p == 0 || p == len || (
            is_char_boundary(b, p) && marks_touch(marks@, k + 1, p, len as int))) by {
                if mark_touches(marks@, k as int, p, len as int) {
                    assert(p == a || p == z);
                }
                if marks_touch(marks@, k + 1, p, len as int) && !mark_touches(marks@, k as int, p, len as int) {
                    let j = choose|j: int| 0 <= j < k + 1 && #[trigger] mark_touches(marks@, j, p, len as int);
                    assert(marks_touch(marks@, k as int, p, len as int));
                }
                if marks_touch(marks@, k as int, p, len as int) {
                    let j = choose|j: int| 0 <= j < k && #[trigger] mark_touches(marks@, j, p, len as int);
                    assert(mark_touches(marks@, j, p, len as int));
                }
            }
        }
        k = k + 1;
    }
    let mut k: usize = 0;
    while k < hits.len()
        invariant
            len == b.len(),
            b == encode_utf8(text@),
            flags@.len() == len + 1,
            k <= hits@.len(),
            forall|p: int|
                0 <= p <= len ==> #[trigger] flags@[p] == (p == 0 || p == len || mark_bound(b, marks@, p)
                    || (is_char_boundary(b, p) && !inside_mark(marks@, p) && hits_touch(
                    hits@,
                    k as int,
                    p,
                    len as int,
                ))),
        decreases hits@.len() - k,
    {
        let a = clamp_to(hits[k].0, len);
        let z = clamp_to(hits[k].1, len);
        if !inside_any_mark(marks, a) && text.is_char_boundary(a) {
            flags.set(a, true);
        }
        if !inside_any_mark(marks, z) && text.is_char_boundary(z) {
            flags.set(z, true);
        }
        proof {
            assert forall|p: int| 0 <= p <= len implies #[trigger] flags@[p] == (p == 0 || p == len
                || mark_bound(b, marks@, p) || (is_char_boundary(b, p) && !inside_mark(marks@, p)
                && hits_touch(hits@, k + 1, p, len as int))) by {
                if hit_touches(hits@, k as int, p, len as int) {
                    assert(p == a || p == z);
                }
                if hits_touch(hits@, k + 1, p, len as int) && !hit_touches(hits@, k as int, p, len as int) {
                    let j = choose|j: int| 0 <= j < k + 1 && #[trigger] hit_touches(hits@, j, p, len as int);
                    assert(hits_touch(hits@, k as int, p, len as int));
                }
                if hits_touch(hits@, k as int, p, len as int) {
                    let j = choose|j: int| 0 <= j < k && #[trigger] hit_touches(hits@, j, p, len as int);
                    assert(hit_touches(hits@, j, p, len as int));
                }
            }
        }
        k = k + 1;
    }
    flags
}

// ---- the cuts ----

/// The bytes `s..e` lie inside one mark, or overlap a hit: a run of their
/// own, never cut into words.
pub open spec fn covered(marks: Seq<Mark>, hits: Seq<(usize, usize)>, s: int, e: int) -> bool {
    (exists|k: int| 0 <= k < marks.len() && #[trigger] marks[k].start <= s && marks[k].end >= e) || (
    exists|k: int| 0 <= k < hits.len() && #[trigger] hits[k].0 < e && hits[k].1 > s)
}

/// The last boundary before `p`.
pub open spec fn prev_bound(b: Seq<u8>, marks: Seq<Mark>, hits: Seq<(usize, usize)>, p: int) -> int
    decreases p,
{
    if p <= 0 {
        0
    } else if is_bound(b, marks, hits, p - 1) {
        p - 1
    } else {
        prev_bound(b, marks, hits, p - 1)
    }
}

/// The first boundary after `p`.
pub open spec fn next_bound(b: Seq<u8>, marks: Seq<Mark>, hits: Seq<(usize, usize)>, p: int) -> int
    decreases b.len() - p,
{
    if p >= b.len() {
        b.len() as int
    } else if is_bound(b, marks, hits, p + 1) {
        p + 1
    } else {
        next_bound(b, marks, hits, p + 1)
    }
}

/// ASCII white space: space, tab, line feed, form feed, carriage return.
pub open spec fn is_ws(c: u8) -> bool {
    c == 32 || c == 9 || c == 10 || c == 12 || c == 13
}

/// Some byte of `s..p` is not white space: a word has begun.
pub open spec fn has_word(b: Seq<u8>, s: int, p: int) -> bool {
    exists|q: int| s <= q < p && !is_ws(#[trigger] b[q])
}

/// The start of a word inside an unmarked segment, other than its first
/// word: the white space that ends a word stays on it.
pub open spec fn word_cut(b: Seq<u8>, marks: Seq<Mark>, hits: Seq<(usize, usize)>, p: int) -> bool {
    let s = prev_bound(b, marks, hits, p);
    &&& 0 < p < b.len()
    &&& !is_bound(b, marks, hits, p)
    &&& !covered(marks, hits, s, next_bound(b, marks, hits, p))
    &&& !is_ws(b[p])
    &&& is_ws(b[p - 1])
    &&& has_word(b, s, p)
    &&& is_char_boundary(b, p)
}

/// Where the line is cut: its boundaries and its word starts.
pub open spec fn is_cut(b: Seq<u8>, marks: Seq<Mark>, hits: Seq<(usize, usize)>, p: int) -> bool {
    is_bound(b, marks, hits, p) || word_cut(b, marks, hits, p)
}

/// The cuts below `n`, in order.
pub open spec fn cuts_upto(b: Seq<u8>, marks: Seq<Mark>, hits: Seq<(usize, usize)>, n: int) -> Seq<int>
    decreases n,
{
    if n <= 0 {
        Seq::empty()
    } else if is_cut(b, marks, hits, n - 1) {
        cuts_upto(b, marks, hits, n - 1).push(n - 1)
    } else {
        cuts_upto(b, marks, hits, n - 1)
    }
}

proof fn lemma_prev_bound(b: Seq<u8>, marks: Seq<Mark>, hits: Seq<(usize, usize)>, s: int, p: int)
    requires
        0 <= s < p,
        is_bound(b, marks, hits, s),
        forall|q: int| s < q < p ==> !is_bound(b, marks, hits, q),
    ensures
        prev_bound(b, marks, hits, p) == s,
    decreases p,
{
    if p - 1 > s {
        lemma_prev_bound(b, marks, hits, s, p - 1);
    }
}

proof fn lemma_next_bound(b: Seq<u8>, marks: Seq<Mark>, hits: Seq<(usize, usize)>, p: int, e: int)
    requires
        p < e <= b.len(),
        is_bound(b, marks, hits, e),
        forall|q: int| p < q < e ==> !is_bound(b, marks, hits, q),
    ensures
        next_bound(b, marks, hits, p) == e,
    decreases e - p,
{
    if p + 1 < e {
        lemma_next_bound(b, marks, hits, p + 1, e);
    }
}

fn any_cover(marks: &[Mark], hits: &[(usize, usize)], s: usize, e: usize) -> (r: bool)
    ensures
        r == covered(marks@, hits@, s as int, e as int),
{
    let mut k: usize = 0;
    while k < marks.len()
        invariant
            k <= marks@.len(),
            forall|j: int| 0 <= j < k ==> !(#[trigger] marks@[j].start <= s && marks@[j].end >= e),
        decreases marks@.len() - k,
    {
        if marks[k].start <= s && marks[k].end >= e {
            return true;
        }
        k = k + 1;
    }
    let mut k: usize = 0;
    while k < hits.len()
        invariant
            k <= hits@.len(),
            forall|j: int| 0 <= j < marks@.len() ==> !(#[trigger] marks@[j].start <= s && marks@[j].end >= e),
            forall|j: int| 0 <= j < k ==> !(#[trigger] hits@[j].0 < e && hits@[j].1 > s),
        decreases hits@.len() - k,
    {
        if hits[k].0 < e && hits[k].1 > s {
            return true;
        }
        k = k + 1;
    }
    false
}

fn ws_byte(c: u8) -> (r: bool)
    ensures
        r == is_ws(c),
{
    c == 32 || c == 9 || c == 10 || c == 12 || c == 13
}

/// Every cut of the line, in order.
fn cut_points(text: &str, marks: &[Mark], hits: &[(usize, usize)], flags: &Vec<bool>) -> (cuts: Vec<usize>)
    requires
        encode_utf8(text@).len() < usize::MAX,
        flags@.len() == encode_utf8(text@).len() + 1,
        forall|p: int|
            0 <= p <= encode_utf8(text@).len() ==> #[trigger] flags@[p] == is_bound(
                encode_utf8(text@),
                marks@,
                hits@,
                p,
            ),
    ensures
        cuts@.map_values(|c: usize| c as int) == cuts_upto(
            encode_utf8(text@),
            marks@,
            hits@,
            encode_utf8(text@).len() + 1int,
        ),
{
    let ghost b = encode_utf8(text@);
    let bytes = text.as_bytes();
    let len = text.len();
    let mut cuts: Vec<usize> = Vec::new();
    cuts.push(0);
    proof {
        assert(is_cut(b, marks@, hits@, 0));
        assert(cuts_upto(b, marks@, hits@, 0) =~= Seq::<int>::empty());
        assert(cuts@.map_values(|c: usize| c as int) =~= cuts_upto(b, marks@, hits@, 1));
    }
    let mut s: usize = 0;
    while s < len
        invariant
            b == encode_utf8(text@),
            bytes@ == b,
            len == b.len(),
            len < usize::MAX,
            flags@.len() == len + 1,
            forall|p: int| 0 <= p <= len ==> #[trigger] flags@[p] == is_bound(b, marks@, hits@, p),
            s <= len,
            is_bound(b, marks@, hits@, s as int),
            cuts@.map_values(|c: usize| c as int) == cuts_upto(b, marks@, hits@, s + 1),
        decreases len - s,
    {
        let mut e: usize = s + 1;
        while !flags[e]
            invariant
                s < e <= len,
                flags@.len() == len + 1,
                flags@[len as int],
                forall|q: int| s < q < e ==> !flags@[q],
            decreases len - e,
        {
            e = e + 1;
        }
        proof {
            assert forall|q: int| s < q < e implies !is_bound(b, marks@, hits@, q) by {
                assert(!flags@[q]);
            }
            assert(flags@[e as int]);
        }
        let cov = any_cover(marks, hits, s, e);
        let ghost start = cuts@.map_values(|c: usize| c as int);
        if !cov {
            let mut word = !ws_byte(bytes[s]);
            let mut prev_ws = ws_byte(bytes[s]);
            let mut q: usize = s + 1;
            proof {
                assert(word == has_word(b, s as int, s + 1)) by {
                    if !is_ws(b[s as int]) {
                        assert(!is_ws(b[s as int]));
                    }
                }
                assert(cuts_upto(b, marks@, hits@, s + 1) == start);
            }
            while q < e
                invariant
                    b == encode_utf8(text@),
                    bytes@ == b,
                    len == b.len(),
                    s < q <= e,
                    e <= len,
                    is_bound(b, marks@, hits@, s as int),
                    is_bound(b, marks@, hits@, e as int),
                    forall|r: int| s < r < e ==> !is_bound(b, marks@, hits@, r),
                    !covered(marks@, hits@, s as int, e as int),
                    word == has_word(b, s as int, q as int),
                    prev_ws == is_ws(b[q - 1]),
                    cuts@.map_values(|c: usize| c as int) == cuts_upto(b, marks@, hits@, q as int),
                decreases e - q,
            {
                let c = bytes[q];
                let ws = ws_byte(c);
                let boundary = text.is_char_boundary(q);
                proof {
                    lemma_prev_bound(b, marks@, hits@, s as int, q as int);
                    lemma_next_bound(b, marks@, hits@, q as int, e as int);
                    assert(is_cut(b, marks@, hits@, q as int) == (word && !ws && prev_ws && boundary));
                }
                let ghost before = cuts@.map_values(|c: usize| c as int);
                if word && !ws && prev_ws && boundary {
                    cuts.push(q);
                    proof {
                        assert(cuts@.map_values(|c: usize| c as int) =~= before.push(q as int));
                    }
                }
                proof {
                    assert(has_word(b, s as int, q + 1) == (word || !ws)) by {
                        if !ws {
                            assert(!is_ws(b[q as int]));
                        }
                        if has_word(b, s as int, q + 1) && !word {
                            let w = choose|w: int| s <= w < q + 1 && !is_ws(#[trigger] b[w]);
                            assert(w == q);
                        }
                    }
                }
                word = word || !ws;
                prev_ws = ws;
                q = q + 1;
            }
        } else {
            let mut q: usize = s + 1;
            while q < e
                invariant
                    s < q <= e,
                    e <= len,
                    len == b.len(),
                    is_bound(b, marks@, hits@, s as int),
                    is_bound(b, marks@, hits@, e as int),
                    forall|r: int| s < r < e ==> !is_bound(b, marks@, hits@, r),
                    covered(marks@, hits@, s as int, e as int),
                    cuts@.map_values(|c: usize| c as int) == cuts_upto(b, marks@, hits@, q as int),
                decreases e - q,
            {
                proof {
                    lemma_prev_bound(b, marks@, hits@, s as int, q as int);
                    lemma_next_bound(b, marks@, hits@, q as int, e as int);
                    assert(!is_cut(b, marks@, hits@, q as int));
                }
                q = q + 1;
            }
        }
        let ghost before = cuts@.map_values(|c: usize| c as int);
        cuts.push(e);
        proof {
            assert(cuts@.map_values(|c: usize| c as int) =~= before.push(e as int));
        }
        s = e;
    }
    cuts
}

// ---- the runs ----

/// Some mark of kind `kind` spans all of `s..e`.
pub open spec fn marked(marks: Seq<Mark>, kind: MarkKind, s: int, e: int) -> bool {
    exists|k: int| 0 <= k < marks.len() && (#[trigger] marks[k]).kind == kind && marks[k].start <= s && marks[k].end >= e
}

/// The first link mark at or after `from` that spans all of `s..e`.
pub open spec fn first_link(marks: Seq<Mark>, s: int, e: int, from: int) -> Option<int>
    decreases marks.len() - from,
{
    if from < 0 || from >= marks.len() {
        None
    } else if marks[from].kind == MarkKind::Link && marks[from].start <= s && marks[from].end >= e {
        Some(from)
    } else {
        first_link(marks, s, e, from + 1)
    }
}

/// Some hit overlaps `s..e`.
pub open spec fn hit_in(hits: Seq<(usize, usize)>, s: int, e: int) -> bool {
    exists|k: int| 0 <= k < hits.len() && #[trigger] hits[k].0 < e && hits[k].1 > s
}

/// `run` is the bytes `s..e` of `b`, drawn as the marks spanning them say,
/// tinted when a hit overlaps them.
pub open spec fn run_matches(run: TextRun, b: Seq<u8>, marks: Seq<Mark>, hits: Seq<(usize, usize)>, s: int, e: int) -> bool {
    &&& encode_utf8(run.text@) == b.subrange(s, e)
    &&& run.bold == marked(marks, MarkKind::Bold, s, e)
    &&& run.italic == marked(marks, MarkKind::Italic, s, e)
    &&& run.strike == marked(marks, MarkKind::Strike, s, e)
    &&& run.code == marked(marks, MarkKind::Code, s, e)
    &&& run.math == marked(marks, MarkKind::Math, s, e)
    &&& run.link == marked(marks, MarkKind::Link, s, e)
    &&& run.url@ == match first_link(marks, s, e, 0) {
        Some(k) => marks[k].url@,
        None => Seq::<char>::empty(),
    }
    &&& run.hit == hit_in(hits, s, e)
}

/// The runs of `text`: none when nothing marks or hits it (the line is
/// drawn as one unbroken text) or it is empty, else one per pair of
/// neighbouring cuts.
pub open spec fn text_runs(runs: Seq<TextRun>, text: Seq<char>, marks: Seq<Mark>, hits: Seq<(usize, usize)>) -> bool {
    if (marks.len() == 0 && hits.len() == 0) || text.len() == 0 {
        runs.len() == 0
    } else {
        runs_match(runs, encode_utf8(text), marks, hits)
    }
}

/// The runs of a line: one per pair of neighbouring cuts.
pub open spec fn runs_match(runs: Seq<TextRun>, b: Seq<u8>, marks: Seq<Mark>, hits: Seq<(usize, usize)>) -> bool {
    let cuts = cuts_upto(b, marks, hits, b.len() + 1int);
    &&& runs.len() == cuts.len() - 1
    &&& forall|j: int| 0 <= j < runs.len() ==> run_matches(#[trigger] runs[j], b, marks, hits, cuts[j], cuts[j + 1])
}

fn has_mark(marks: &[Mark], kind: MarkKind, s: usize, e: usize) -> (r: bool)
    ensures
        r == marked(marks@, kind, s as int, e as int),
{
    let mut k: usize = 0;
    while k < marks.len()
        invariant
            k <= marks@.len(),
            forall|j: int| 0 <= j < k ==> !((#[trigger] marks@[j]).kind == kind && marks@[j].start <= s && marks@[j].end >= e),
        decreases marks@.len() - k,
    {
        if marks[k].kind == kind && marks[k].start <= s && marks[k].end >= e {
            return true;
        }
        k = k + 1;
    }
    false
}

fn find_link(marks: &[Mark], s: usize, e: usize) -> (r: Option<usize>)
    ensures
        match r {
            Some(k) => first_link(marks@, s as int, e as int, 0) == Some(k as int) && k < marks@.len(),
            None => first_link(marks@, s as int, e as int, 0) is None,
        },
{
    let mut k: usize = 0;
    while k < marks.len()
        invariant
            k <= marks@.len(),
            first_link(marks@, s as int, e as int, 0) == first_link(marks@, s as int, e as int, k as int),
        decreases marks@.len() - k,
    {
        if marks[k].kind == MarkKind::Link && marks[k].start <= s && marks[k].end >= e {
            return Some(k);
        }
        k = k + 1;
    }
    None
}

fn any_hit(hits: &[(usize, usize)], s: usize, e: usize) -> (r: bool)
    ensures
        r == hit_in(hits@, s as int, e as int),
{
    let mut k: usize = 0;
    while k < hits.len()
        invariant
            k <= hits@.len(),
            forall|j: int| 0 <= j < k ==> !(#[trigger] hits@[j].0 < e && hits@[j].1 > s),
        decreases hits@.len() - k,
    {
        if hits[k].0 < e && hits[k].1 > s {
            return true;
        }
        k = k + 1;
    }
    false
}

/// The bytes `s..e` of `text`, both char boundaries.
fn slice(text: &str, s: usize, e: usize) -> (r: String)
    requires
        s < e <= encode_utf8(text@).len(),
        is_char_boundary(encode_utf8(text@), s as int),
        is_char_boundary(encode_utf8(text@), e as int),
    ensures
        encode_utf8(r@) == encode_utf8(text@).subrange(s as int, e as int),
{
    let ghost b = encode_utf8(text@);
    proof {
        encode_utf8_valid_utf8(text@);
    }
    let (left, _) = text.split_at(e);
    proof {
        let l = b.subrange(0, e as int);
        assert(encode_utf8(left@) =~= l);
        valid_utf8_split(b, e as int);
        if s > 0 {
            is_char_boundary_iff_not_is_continuation_byte(b, s as int);
            is_char_boundary_iff_not_is_continuation_byte(l, s as int);
        }
    }
    let (_, mid) = left.split_at(s);
    String::from_str(mid)
}

/// The cuts below `n` are cuts, below `n`, and strictly increasing.
proof fn lemma_cuts(b: Seq<u8>, marks: Seq<Mark>, hits: Seq<(usize, usize)>, n: int)
    ensures
        forall|j: int|
            0 <= j < cuts_upto(b, marks, hits, n).len() ==> {
                let c = #[trigger] cuts_upto(b, marks, hits, n)[j];
                0 <= c < n && is_cut(b, marks, hits, c)
            },
        forall|i: int, j: int|
            0 <= i < j < cuts_upto(b, marks, hits, n).len() ==> #[trigger] cuts_upto(b, marks, hits, n)[i]
                < #[trigger] cuts_upto(b, marks, hits, n)[j],
    decreases n,
{
    if n > 0 {
        lemma_cuts(b, marks, hits, n - 1);
        let prev = cuts_upto(b, marks, hits, n - 1);
        let cur = cuts_upto(b, marks, hits, n);
        if is_cut(b, marks, hits, n - 1) {
            assert(cur == prev.push(n - 1));
            assert forall|j: int| 0 <= j < cur.len() implies {
                let c = #[trigger] cur[j];
                0 <= c < n && is_cut(b, marks, hits, c)
            } by {
                if j < prev.len() {
                    assert(cur[j] == prev[j]);
                }
            }
            assert forall|i: int, j: int| 0 <= i < j < cur.len() implies #[trigger] cur[i] < #[trigger] cur[j] by {
                assert(cur[i] == prev[i]);
                if j < prev.len() {
                    assert(cur[j] == prev[j]);
                }
            }
        }
    }
}

/// Every cut falls on a char boundary.
proof fn lemma_cut_boundary(b: Seq<u8>, marks: Seq<Mark>, hits: Seq<(usize, usize)>, p: int)
    requires
        valid_utf8(b),
        0 <= p <= b.len(),
        is_cut(b, marks, hits, p),
    ensures
        is_char_boundary(b, p),
{
    is_char_boundary_start_end_of_seq(b);
}

/// Split text into runs: one per mark change, and one per word inside an
/// unmarked stretch, so a marked line has somewhere to wrap. `hits` are the
/// find bar's occurrences in the same byte space; each is one more
/// boundary, and its cell carries `hit`. No runs at all means "draw the
/// text as one unbroken line", which is what a line with no marks and no
/// hits gets.
pub fn build_runs(text: &str, marks: &[Mark], hits: &[(usize, usize)]) -> (r: Vec<TextRun>)
    requires
        encode_utf8(text@).len() < usize::MAX,
    ensures
        text_runs(r@, text@, marks@, hits@),
{
    if (marks.len() == 0 && hits.len() == 0) || text.is_empty() {
        return Vec::new();
    }
    let ghost b = encode_utf8(text@);
    proof {
        encode_utf8_valid_utf8(text@);
    }
    let flags = bound_flags(text, marks, hits);
    let cuts = cut_points(text, marks, hits, &flags);
    let ghost cs = cuts_upto(b, marks@, hits@, b.len() + 1int);
    proof {
        lemma_cuts(b, marks@, hits@, b.len() + 1int);
        assert(cs.len() == cuts@.len());
        assert(cs.len() >= 1) by {
            assert(is_cut(b, marks@, hits@, 0));
            lemma_first_cut(b, marks@, hits@, b.len() + 1int);
        }
    }
    let mut runs: Vec<TextRun> = Vec::new();
    let mut j: usize = 0;
    while j < cuts.len() - 1
        invariant
            b == encode_utf8(text@),
            valid_utf8(b),
            cs == cuts_upto(b, marks@, hits@, b.len() + 1int),
            cuts@.map_values(|c: usize| c as int) == cs,
            cs.len() == cuts@.len(),
            cs.len() >= 1,
            forall|i: int| 0 <= i < cs.len() ==> {
                let c = #[trigger] cs[i];
                0 <= c < b.len() + 1 && is_cut(b, marks@, hits@, c)
            },
            forall|i: int, k: int| 0 <= i < k < cs.len() ==> #[trigger] cs[i] < #[trigger] cs[k],
            j + 1 <= cuts@.len(),
            runs@.len() == j,
            forall|i: int| 0 <= i < j ==> run_matches(#[trigger] runs@[i], b, marks@, hits@, cs[i], cs[i + 1]),
        decreases cuts@.len() - j,
    {
        let s = cuts[j];
        let e = cuts[j + 1];
        proof {
            assert(cs[j as int] == s && cs[j + 1] == e);
            assert(s < e);
            lemma_cut_boundary(b, marks@, hits@, s as int);
            lemma_cut_boundary(b, marks@, hits@, e as int);
        }
        let link_mark = find_link(marks, s, e);
        let url = match link_mark {
            Some(k) => marks[k].url.clone(),
            None => String::new(),
        };
        let run = TextRun {
            text: slice(text, s, e),
            bold: has_mark(marks, MarkKind::Bold, s, e),
            italic: has_mark(marks, MarkKind::Italic, s, e),
            strike: has_mark(marks, MarkKind::Strike, s, e),
            code: has_mark(marks, MarkKind::Code, s, e),
            link: link_mark.is_some(),
            url,
            hit: any_hit(hits, s, e),
            math: has_mark(marks, MarkKind::Math, s, e),
        };
        proof {
            lemma_first_link_marked(marks@, s as int, e as int, 0);
        }
        runs.push(run);
        j = j + 1;
    }
    runs
}

proof fn lemma_first_cut(b: Seq<u8>, marks: Seq<Mark>, hits: Seq<(usize, usize)>, n: int)
    requires
        n >= 1,
        is_cut(b, marks, hits, 0),
    ensures
        cuts_upto(b, marks, hits, n).len() >= 1,
    decreases n,
{
    if n > 1 {
        lemma_first_cut(b, marks, hits, n - 1);
    } else {
        assert(cuts_upto(b, marks, hits, 0) =~= Seq::<int>::empty());
    }
}

/// A link mark spans `s..e` exactly when the first one found does.
proof fn lemma_first_link_marked(marks: Seq<Mark>, s: int, e: int, from: int)
    requires
        0 <= from,
    ensures
        (first_link(marks, s, e, from) is Some) == (exists|k: int|
            from <= k < marks.len() && (#[trigger] marks[k]).kind == MarkKind::Link && marks[k].start <= s
                && marks[k].end >= e),
        first_link(marks, s, e, from) matches Some(k) ==> from <= k < marks.len(),
    decreases marks.len() - from,
{
    if from < marks.len() {
        lemma_first_link_marked(marks, s, e, from + 1);
    }
}

// ---- the runs put back together ----

/// The runs' bytes, one after another.
pub open spec fn joined(runs: Seq<TextRun>) -> Seq<u8>
    decreases runs.len(),
{
    if runs.len() == 0 {
        Seq::empty()
    } else {
        joined(runs.drop_last()) + encode_utf8(runs.last().text@)
    }
}

proof fn lemma_cuts_ends(b: Seq<u8>, marks: Seq<Mark>, hits: Seq<(usize, usize)>, n: int)
    requires
        1 <= n <= b.len() + 1,
    ensures
        cuts_upto(b, marks, hits, n).len() >= 1,
        cuts_upto(b, marks, hits, n)[0] == 0,
        n == b.len() + 1 ==> cuts_upto(b, marks, hits, n).last() == b.len(),
    decreases n,
{
    if n > 1 {
        lemma_cuts_ends(b, marks, hits, n - 1);
        assert(is_cut(b, marks, hits, b.len() as int));
    } else {
        assert(is_cut(b, marks, hits, 0));
        assert(cuts_upto(b, marks, hits, 0) =~= Seq::<int>::empty());
    }
}

/// Cutting is a re-join, never a rewrite: the runs of a line, put back
/// together, are its text, byte for byte, and no run is empty.
pub proof fn lemma_runs_rejoin(runs: Seq<TextRun>, text: Seq<char>, marks: Seq<Mark>, hits: Seq<(usize, usize)>)
    requires
        runs_match(runs, encode_utf8(text), marks, hits),
    ensures
        joined(runs) == encode_utf8(text),
        forall|j: int| 0 <= j < runs.len() ==> (#[trigger] runs[j]).text@.len() > 0,
{
    let b = encode_utf8(text);
    let n = b.len() + 1int;
    let cs = cuts_upto(b, marks, hits, n);
    lemma_cuts_ends(b, marks, hits, n);
    lemma_cuts(b, marks, hits, n);
    assert forall|k: int| 0 <= k <= runs.len() implies #[trigger] joined(runs.take(k)) == b.subrange(0, cs[k]) by {
        lemma_joined_prefix(runs, b, marks, hits, k);
    }
    assert(runs.take(runs.len() as int) =~= runs);
    assert(cs[runs.len() as int] == cs.last());
    assert(b.subrange(0, b.len() as int) =~= b);
    assert forall|j: int| 0 <= j < runs.len() implies (#[trigger] runs[j]).text@.len() > 0 by {
        assert(run_matches(runs[j], b, marks, hits, cs[j], cs[j + 1]));
        assert(cs[j] < cs[j + 1]);
        if runs[j].text@.len() == 0 {
            assert(runs[j].text@ =~= Seq::<char>::empty());
            lemma_encode_empty();
        }
    }
}

proof fn lemma_encode_empty()
    ensures
        encode_utf8(Seq::<char>::empty()).len() == 0,
{
    reveal_with_fuel(encode_utf8, 1);
}

proof fn lemma_joined_prefix(runs: Seq<TextRun>, b: Seq<u8>, marks: Seq<Mark>, hits: Seq<(usize, usize)>, k: int)
    requires
        runs_match(runs, b, marks, hits),
        0 <= k <= runs.len(),
        cuts_upto(b, marks, hits, b.len() + 1int)[0] == 0,
        forall|i: int, j: int|
            0 <= i < j < cuts_upto(b, marks, hits, b.len() + 1int).len() ==> #[trigger] cuts_upto(b, marks, hits, b.len() + 1int)[i]
                < #[trigger] cuts_upto(b, marks, hits, b.len() + 1int)[j],
        forall|j: int|
            0 <= j < cuts_upto(b, marks, hits, b.len() + 1int).len() ==> {
                let c = #[trigger] cuts_upto(b, marks, hits, b.len() + 1int)[j];
                0 <= c < b.len() + 1 && is_cut(b, marks, hits, c)
            },
    ensures
        joined(runs.take(k)) == b.subrange(0, cuts_upto(b, marks, hits, b.len() + 1int)[k]),
    decreases k,
{
    let cs = cuts_upto(b, marks, hits, b.len() + 1int);
    if k == 0 {
        assert(runs.take(0) =~= Seq::<TextRun>::empty());
        assert(b.subrange(0, 0) =~= Seq::<u8>::empty());
    } else {
        lemma_joined_prefix(runs, b, marks, hits, k - 1);
        assert(runs.take(k).drop_last() =~= runs.take(k - 1));
        assert(runs.take(k).last() == runs[k - 1]);
        assert(run_matches(runs[k - 1], b, marks, hits, cs[k - 1], cs[k]));
        assert(cs[k - 1] < cs[k]);
        assert(b.subrange(0, cs[k]) =~= b.subrange(0, cs[k - 1]) + b.subrange(cs[k - 1], cs[k]));
    }
}

proof fn lemma_cuts_complete(b: Seq<u8>, marks: Seq<Mark>, hits: Seq<(usize, usize)>, n: int, p: int)
    requires
        0 <= p < n,
        is_cut(b, marks, hits, p),
    ensures
        cuts_upto(b, marks, hits, n).contains(p),
    decreases n,
{
    if p < n - 1 {
        lemma_cuts_complete(b, marks, hits, n - 1, p);
        let prev = cuts_upto(b, marks, hits, n - 1);
        let i = choose|i: int| 0 <= i < prev.len() && prev[i] == p;
        if is_cut(b, marks, hits, n - 1) {
            assert(cuts_upto(b, marks, hits, n)[i] == p);
        }
    } else {
        assert(cuts_upto(b, marks, hits, n).last() == p);
    }
}

/// A hit's own span is its own cells: no run reaches across the start or
/// the end of a hit (clamped to the text) that falls on a char boundary
/// outside every mark.
pub proof fn lemma_hit_ends_are_cuts(
    runs: Seq<TextRun>,
    text: Seq<char>,
    marks: Seq<Mark>,
    hits: Seq<(usize, usize)>,
    k: int,
    j: int,
)
    requires
        runs_match(runs, encode_utf8(text), marks, hits),
        0 <= k < hits.len(),
        0 <= j < runs.len(),
    ensures
        ({
            let b = encode_utf8(text);
            let cs = cuts_upto(b, marks, hits, b.len() + 1int);
            forall|v: int|
                (v == clamp(hits[k].0 as int, b.len() as int) || v == clamp(hits[k].1 as int, b.len() as int))
                    && #[trigger] is_char_boundary(b, v) && !inside_mark(marks, v) ==> v <= cs[j] || v >= cs[j + 1]
        }),
{
    let b = encode_utf8(text);
    let n = b.len() + 1int;
    let cs = cuts_upto(b, marks, hits, n);
    lemma_cuts(b, marks, hits, n);
    assert forall|v: int|
        (v == clamp(hits[k].0 as int, b.len() as int) || v == clamp(hits[k].1 as int, b.len() as int))
            && #[trigger] is_char_boundary(b, v) && !inside_mark(marks, v) implies v <= cs[j] || v >= cs[j + 1] by {
        assert(hit_touches(hits, k, v, b.len() as int));
        assert(hit_bound(b, marks, hits, v));
        assert(0 <= v <= b.len()) by {
            assert(0 <= clamp(hits[k].0 as int, b.len() as int) <= b.len());
            assert(0 <= clamp(hits[k].1 as int, b.len() as int) <= b.len());
        }
        lemma_cuts_complete(b, marks, hits, n, v);
        let i = choose|i: int| 0 <= i < cs.len() && cs[i] == v;
        if cs[j] < v && v < cs[j + 1] {
            if i <= j {
                if i < j {
                    assert(cs[i] < cs[j]);
                }
            } else if i >= j + 1 {
                if i > j + 1 {
                    assert(cs[j + 1] < cs[i]);
                }
            }
        }
    }
}

} // verus!
