//! Sentence spans: merging of boundaries and packing into blocks that respect hard breaks.
use vstd::prelude::*;
use std::collections::HashSet;
use crate::blocks::{TextBlock, packed, pack_groups, count_nonzero, run_ok};
use crate::text::{bytes_slice, chars_of, fits_i32, slice_by_bytes, char_count, head_chars, tail_chars, min_int};
use crate::boundaries::{ambiguous, is_ambiguous_boundary};
use crate::sentences::{is_ws, is_whitespace, trim, trimmed};

verus! {

broadcast use vstd::std_specs::hash::group_hash_axioms;

/// A sentence as a byte range `[start, end)` of the text.
#[derive(Debug, Clone, Copy, PartialEq, Eq, Structural)]
pub struct SentenceSpan {
    pub start: i32,
    pub end: i32,
}

impl SentenceSpan {
    /// The range as unsigned offsets, when it is not negative or reversed.
    pub fn as_usize(&self) -> (r: Option<(usize, usize)>)
        ensures
            r == (if self.start < 0 || self.end < 0 || self.end < self.start {
                None
            } else {
                Some((self.start as usize, self.end as usize))
            }),
    {
        if self.start < 0 || self.end < 0 || self.end < self.start {
            return None;
        }
        Some((self.start as usize, self.end as usize))
    }
}

/// The `k`-th merged span covers the spans `cuts[k]..cuts[k + 1]`: every boundary
/// inside the run is marked, and the boundary that ends it (if any) is not.
pub open spec fn merged_run(spans: Seq<SentenceSpan>, marks: Seq<usize>, r: Seq<SentenceSpan>, cuts: Seq<int>, k: int) -> bool {
    &&& 0 <= cuts[k]
    &&& cuts[k] < cuts[k + 1]
    &&& r[k].start == spans[cuts[k]].start
    &&& r[k].end == spans[cuts[k + 1] - 1].end
    &&& cuts[k + 1] < spans.len() ==> !marks.contains((cuts[k + 1] - 1) as usize)
    &&& forall|j: usize| cuts[k] <= j < cuts[k + 1] - 1 ==> #[trigger] marks.contains(j)
}

/// `r` merges the runs `cuts[k]..cuts[k + 1]` of `spans`: each run goes on while the
/// boundary after its current span is marked, and stops at the first unmarked one.
pub open spec fn merged(spans: Seq<SentenceSpan>, marks: Seq<usize>, r: Seq<SentenceSpan>, cuts: Seq<int>) -> bool {
    &&& cuts.len() == r.len() + 1
    &&& cuts[0] == 0
    &&& cuts.last() == spans.len()
    &&& forall|k: int| 0 <= k < r.len() ==> #[trigger] merged_run(spans, marks, r, cuts, k)
}

fn contains_index(v: &[usize], x: usize) -> (r: bool)
    ensures
        r == v@.contains(x),
{
    let mut i: usize = 0;
    while i < v.len()
        invariant
            i <= v.len(),
            forall|j: int| 0 <= j < i ==> v@[j] != x,
        decreases v.len() - i,
    {
        if v[i] == x {
            assert(v@[i as int] == x);
            return true;
        }
        i += 1;
    }
    false
}

/// Merges each marked boundary `i` (between spans `i` and `i + 1`), transitively: a
/// chain of marked boundaries collapses into one span.
pub fn merge_spans_by_indices(spans: &[SentenceSpan], merge_indices: &[usize]) -> (r: Vec<SentenceSpan>)
    ensures
        exists|cuts: Seq<int>| merged(spans@, merge_indices@, r@, cuts),
{
    let n = spans.len();
    let mut out: Vec<SentenceSpan> = Vec::new();
    let ghost mut cuts: Seq<int> = seq![0];
    let mut i: usize = 0;
    while i < n
        invariant
            n == spans@.len(),
            i <= n,
            cuts.len() == out.len() + 1,
            cuts[0] == 0,
            cuts.last() == i,
            forall|k: int| 0 <= k < out.len() ==> #[trigger] merged_run(spans@, merge_indices@, out@, cuts, k),
        decreases n - i,
    {
        let start = spans[i].start;
        let mut end = spans[i].end;
        let mut j = i;
        while j + 1 < n && contains_index(merge_indices, j)
            invariant
                n == spans@.len(),
                i <= j < n,
                end == spans@[j as int].end,
                forall|m: usize| i <= m < j ==> #[trigger] merge_indices@.contains(m),
            decreases n - j,
        {
            end = spans[j + 1].end;
            j += 1;
        }
        let ghost old_out = out@;
        let ghost old_cuts = cuts;
        assert(j + 1 < n ==> !merge_indices@.contains(j));
        out.push(SentenceSpan { start, end });
        proof {
            cuts = cuts.push(j + 1);
            assert forall|k: int| 0 <= k < out.len() implies #[trigger] merged_run(spans@, merge_indices@, out@, cuts, k) by {
                if k < old_out.len() {
                    assert(merged_run(spans@, merge_indices@, old_out, old_cuts, k));
                    assert(out@[k] == old_out[k]);
                    assert(cuts[k] == old_cuts[k] && cuts[k + 1] == old_cuts[k + 1]);
                }
            }
        }
        i = j + 1;
    }
    assert(merged(spans@, merge_indices@, out@, cuts));
    out
}

/// Each span ends where the next one starts.
pub open spec fn contiguous(s: Seq<SentenceSpan>) -> bool {
    forall|i: int| 0 <= i < s.len() - 1 ==> (#[trigger] s[i]).end == s[i + 1].start
}

proof fn lemma_cuts_bounds(spans: Seq<SentenceSpan>, marks: Seq<usize>, r: Seq<SentenceSpan>, cuts: Seq<int>, k: int)
    requires
        merged(spans, marks, r, cuts),
        0 <= k <= r.len(),
    ensures
        k <= cuts[k],
        cuts[k] + (r.len() - k) <= spans.len(),
    decreases r.len() - k,
{
    if k < r.len() {
        assert(merged_run(spans, marks, r, cuts, k));
        lemma_cuts_bounds(spans, marks, r, cuts, k + 1);
    }
    if k > 0 {
        assert(merged_run(spans, marks, r, cuts, k - 1));
        lemma_cuts_lower(spans, marks, r, cuts, k);
    }
}

proof fn lemma_cuts_lower(spans: Seq<SentenceSpan>, marks: Seq<usize>, r: Seq<SentenceSpan>, cuts: Seq<int>, k: int)
    requires
        merged(spans, marks, r, cuts),
        0 <= k <= r.len(),
    ensures
        k <= cuts[k],
    decreases k,
{
    if k > 0 {
        assert(merged_run(spans, marks, r, cuts, k - 1));
        lemma_cuts_lower(spans, marks, r, cuts, k - 1);
    }
}

/// Merging boundaries either leaves the spans exactly as they were or gives strictly
/// fewer spans; the merged spans start where the first span starts and end where the
/// last one ends, and spans without gaps between them stay without gaps, so that they
/// cover the same range of the text as before.
pub proof fn lemma_merge_keeps_union(spans: Seq<SentenceSpan>, marks: Seq<usize>, r: Seq<SentenceSpan>)
    requires
        exists|cuts: Seq<int>| merged(spans, marks, r, cuts),
    ensures
        r == spans || r.len() < spans.len(),
        spans.len() > 0 ==> r.len() > 0 && r[0].start == spans[0].start && r.last().end == spans.last().end,
        contiguous(spans) ==> contiguous(r),
{
    let cuts = choose|cuts: Seq<int>| merged(spans, marks, r, cuts);
    lemma_cuts_bounds(spans, marks, r, cuts, 0);
    if r.len() == spans.len() {
        assert forall|k: int| 0 <= k < r.len() implies #[trigger] r[k] == spans[k] by {
            lemma_cuts_bounds(spans, marks, r, cuts, k);
            lemma_cuts_bounds(spans, marks, r, cuts, k + 1);
            assert(merged_run(spans, marks, r, cuts, k));
        }
        assert(r =~= spans);
    }
    if spans.len() > 0 {
        assert(r.len() > 0);
        assert(merged_run(spans, marks, r, cuts, 0));
        assert(merged_run(spans, marks, r, cuts, r.len() - 1));
    }
    if contiguous(spans) {
        assert forall|i: int| 0 <= i < r.len() - 1 implies (#[trigger] r[i]).end == r[i + 1].start by {
            assert(merged_run(spans, marks, r, cuts, i));
            assert(merged_run(spans, marks, r, cuts, i + 1));
            lemma_cuts_bounds(spans, marks, r, cuts, i + 1);
            assert(spans[cuts[i + 1] - 1].end == spans[cuts[i + 1]].start);
        }
    }
}

/// Number of boundaries `0..j` (boundary `i` lies between spans `i` and `i + 1`) that
/// are marked.
pub open spec fn marked_count(marks: Seq<usize>, j: int) -> nat
    decreases j,
{
    if j <= 0 {
        0
    } else {
        marked_count(marks, j - 1) + if marks.contains((j - 1) as usize) { 1nat } else { 0nat }
    }
}

proof fn lemma_marked_run(marks: Seq<usize>, a: int, b: int)
    requires
        0 <= a <= b <= usize::MAX,
        forall|j: usize| a <= j < b ==> #[trigger] marks.contains(j),
    ensures
        marked_count(marks, b) == marked_count(marks, a) + (b - a),
    decreases b - a,
{
    if a < b {
        lemma_marked_run(marks, a, b - 1);
        let j = (b - 1) as usize;
        assert(a <= j < b);
        assert(marks.contains(j));
    }
}

proof fn lemma_marked_prefix(spans: Seq<SentenceSpan>, marks: Seq<usize>, r: Seq<SentenceSpan>, cuts: Seq<int>, k: int)
    requires
        merged(spans, marks, r, cuts),
        spans.len() <= usize::MAX,
        1 <= k <= r.len(),
    ensures
        marked_count(marks, cuts[k] - 1) == cuts[k] - k,
    decreases k,
{
    assert(merged_run(spans, marks, r, cuts, k - 1));
    lemma_cuts_bounds(spans, marks, r, cuts, k);
    if k == 1 {
        lemma_marked_run(marks, 0, cuts[1] - 1);
    } else {
        lemma_marked_prefix(spans, marks, r, cuts, k - 1);
        assert(merged_run(spans, marks, r, cuts, k - 2));
        lemma_cuts_bounds(spans, marks, r, cuts, k - 1);
        lemma_cuts_bounds(spans, marks, r, cuts, k);
        assert(!marks.contains((cuts[k - 1] - 1) as usize));
        assert(marked_count(marks, cuts[k - 1]) == marked_count(marks, cuts[k - 1] - 1));
        lemma_marked_run(marks, cuts[k - 1], cuts[k] - 1);
    }
}

/// Merging removes exactly the marked boundaries: from `n` spans, with `m` of the `n - 1`
/// boundaries marked, `n - m` spans remain.
pub proof fn lemma_merge_count(spans: Seq<SentenceSpan>, marks: Seq<usize>, r: Seq<SentenceSpan>)
    requires
        exists|cuts: Seq<int>| merged(spans, marks, r, cuts),
        0 < spans.len() <= usize::MAX,
    ensures
        r.len() == spans.len() - marked_count(marks, spans.len() - 1),
{
    let cuts = choose|cuts: Seq<int>| merged(spans, marks, r, cuts);
    lemma_cuts_bounds(spans, marks, r, cuts, 0);
    assert(r.len() >= 1) by {
        if r.len() == 0 {
            assert(cuts[0] == cuts.last());
        }
    }
    lemma_marked_prefix(spans, marks, r, cuts, r.len() as int);
}

/// `r` packs `spans` into runs of the text.
pub open spec fn span_lens(text: Seq<char>, spans: Seq<SentenceSpan>) -> Seq<usize> {
    Seq::new(spans.len(), |i: int| bytes_slice(text, spans[i].start as int, spans[i].end as int).len() as usize)
}

/// Item `i` may not join the run before it when a hard break follows span `i - 1`.
pub open spec fn break_marks(spans_len: nat, breaks: Option<Set<usize>>) -> Seq<bool> {
    Seq::new(
        spans_len,
        |i: int|
            match breaks {
                Some(b) => b.contains((if i >= 1 { i - 1 } else { 0 }) as usize),
                None => false,
            },
    )
}

/// Block `b`, the `k`-th, packs the spans `g.0..=g.1` of `text`.
pub open spec fn span_block(text: Seq<char>, spans: Seq<SentenceSpan>, lens: Seq<usize>, g: (usize, usize), k: int, b: TextBlock) -> bool {
    &&& b.index == k
    &&& b.label@ == "sentence_block"@
    &&& b.need_detect
    &&& !b.merge_with_prev
    &&& b.start == spans[g.0 as int].start
    &&& b.end == spans[g.1 as int].end
    &&& b.text@ == bytes_slice(text, b.start as int, b.end as int)
    &&& b.sentence_count == Some(count_nonzero(lens, g.0 as int, g.1 + 1) as i32)
}

proof fn lemma_count_le(lens: Seq<usize>, a: int, b: int)
    requires
        a <= b,
    ensures
        count_nonzero(lens, a, b) <= b - a,
    decreases b - a,
{
    if a < b {
        lemma_count_le(lens, a, b - 1);
    }
}

/// Number of non-empty items in `lens[a..=b]`.
fn nonzero_in(lens: &Vec<usize>, a: usize, b: usize) -> (r: usize)
    requires
        a <= b < lens.len(),
    ensures
        r == count_nonzero(lens@, a as int, b + 1),
{
    let mut c: usize = 0;
    let mut i = a;
    while i <= b
        invariant
            a <= i <= b + 1,
            b < lens.len(),
            c == count_nonzero(lens@, a as int, i as int),
            c <= i - a,
        decreases b + 1 - i,
    {
        if lens[i] > 0 {
            c += 1;
        }
        i += 1;
    }
    c
}

/// The hard breaks as a set of indices, if any.
pub open spec fn break_set(h: Option<&HashSet<usize>>) -> Option<Set<usize>> {
    match h {
        Some(s) => Some(s@),
        None => None,
    }
}

/// Packs sentence spans greedily into blocks of at most `target_chars` characters; a
/// span longer than `max_chars` stands alone, empty spans are skipped, and no block
/// reaches across a hard break (an index `i` in `hard_break_after` separates span `i`
/// from span `i + 1`). Each block's text is the text between its first span's start and
/// its last span's end.
pub fn aggregate_sentence_spans_to_blocks_with_breaks(
    text: &str,
    spans: &[SentenceSpan],
    target_chars: usize,
    max_chars: usize,
    hard_break_after: Option<&HashSet<usize>>,
) -> (r: Vec<TextBlock>)
    requires
        fits_i32(text@),
        spans@.len() <= i32::MAX,
    ensures
        exists|groups: Seq<(usize, usize)>|
            #[trigger] packed(
                span_lens(text@, spans@),
                break_marks(spans@.len(), break_set(hard_break_after)),
                target_chars as int,
                max_chars as int,
                groups,
            ) && r.len() == groups.len() && (forall|k: int|
                0 <= k < r.len() ==> span_block(text@, spans@, span_lens(text@, spans@), groups[k], k, #[trigger] r[k]))
                && (forall|k: int, b: usize|
                0 <= k < r.len() && break_set(hard_break_after) is Some && #[trigger] break_set(hard_break_after)->0.contains(b)
                    ==> !(groups[k].0 <= b < #[trigger] groups[k].1)),
{
    let n = spans.len();
    let mut lens: Vec<usize> = Vec::new();
    let mut brk: Vec<bool> = Vec::new();
    let mut i: usize = 0;
    while i < n
        invariant
            n == spans@.len(),
            fits_i32(text@),
            i <= n,
            lens.len() == i,
            brk.len() == i,
            forall|j: int| 0 <= j < i ==> lens@[j] == #[trigger] span_lens(text@, spans@)[j],
            forall|j: int| 0 <= j < i ==> brk@[j] == #[trigger] break_marks(spans@.len(), break_set(hard_break_after))[j],
        decreases n - i,
    {
        let t = slice_by_bytes(text, spans[i].start, spans[i].end);
        lens.push(char_count(t.as_str()));
        let key: usize = if i >= 1 { i - 1 } else { 0 };
        let b = match hard_break_after {
            Some(h) => h.contains(&key),
            None => false,
        };
        brk.push(b);
        i += 1;
    }
    assert(lens@ =~= span_lens(text@, spans@));
    assert(brk@ =~= break_marks(spans@.len(), break_set(hard_break_after)));
    let groups = pack_groups(&lens, &brk, target_chars, max_chars);
    let mut blocks: Vec<TextBlock> = Vec::new();
    let mut k: usize = 0;
    while k < groups.len()
        invariant
            fits_i32(text@),
            n == spans@.len() <= i32::MAX,
            lens@ == span_lens(text@, spans@),
            brk@ == break_marks(spans@.len(), break_set(hard_break_after)),
            packed(lens@, brk@, target_chars as int, max_chars as int, groups@),
            groups.len() <= n,
            k <= groups.len(),
            blocks.len() == k,
            forall|j: int| 0 <= j < k ==> span_block(text@, spans@, lens@, groups@[j], j, #[trigger] blocks@[j]),
            forall|j: int, b: usize|
                0 <= j < k && break_set(hard_break_after) is Some && #[trigger] break_set(hard_break_after)->0.contains(b)
                    ==> !(groups@[j].0 <= b < #[trigger] groups@[j].1),
        decreases groups.len() - k,
    {
        let g = groups[k];
        proof {
            lemma_run(lens@, brk@, target_chars as int, max_chars as int, groups@, k as int);
        }
        let start = spans[g.0].start;
        let end = spans[g.1].end;
        let t = slice_by_bytes(text, start, end);
        let c = nonzero_in(&lens, g.0, g.1);
        proof {
            lemma_count_le(lens@, g.0 as int, g.1 + 1);
            assert forall|b: usize|
                break_set(hard_break_after) is Some && #[trigger] break_set(hard_break_after)->0.contains(b)
                    implies !(g.0 <= b < g.1) by {
                if g.0 <= b < g.1 {
                    assert(brk@[b + 1]);
                }
            }
        }
        let blk = TextBlock {
            index: k as i32,
            label: "sentence_block".to_string(),
            need_detect: true,
            merge_with_prev: false,
            start,
            end,
            text: t,
            sentence_count: Some(c as i32),
        };
        blocks.push(blk);
        k += 1;
    }
    blocks
}

proof fn lemma_run(lens: Seq<usize>, brk: Seq<bool>, target: int, max: int, groups: Seq<(usize, usize)>, k: int)
    requires
        packed(lens, brk, target, max, groups),
        0 <= k < groups.len(),
    ensures
        run_ok(lens, brk, target, max, groups[k]),
{
    reveal(packed);
}

/// `aggregate_sentence_spans_to_blocks_with_breaks` without hard breaks.
pub fn aggregate_sentence_spans_to_blocks(text: &str, spans: &[SentenceSpan], target_chars: usize, max_chars: usize) -> (r: Vec<TextBlock>)
    requires
        fits_i32(text@),
        spans@.len() <= i32::MAX,
    ensures
        exists|groups: Seq<(usize, usize)>|
            #[trigger] packed(
                span_lens(text@, spans@),
                break_marks(spans@.len(), None),
                target_chars as int,
                max_chars as int,
                groups,
            ) && r.len() == groups.len() && forall|k: int|
                0 <= k < r.len() ==> span_block(text@, spans@, span_lens(text@, spans@), groups[k], k, #[trigger] r[k]),
{
    aggregate_sentence_spans_to_blocks_with_breaks(text, spans, target_chars, max_chars, None)
}

/// Most characters of each side of a boundary shown to the remote model.
pub const SNIPPET_CHARS: usize = 240;

/// Most boundaries sent in one request.
pub const MAX_PAIRS: usize = 80;

/// Most requests made for one document.
pub const MAX_CALLS: usize = 3;

/// A doubtful boundary between span `index` and span `index + 1`, with the end of the
/// left sentence and the start of the right one.
#[derive(Debug, Clone)]
pub struct BoundaryPair {
    pub index: usize,
    pub left: String,
    pub right: String,
}

/// What the remote model is shown of boundary `i`, when it is doubtful and not blocked.
pub open spec fn candidate(text: Seq<char>, spans: Seq<SentenceSpan>, i: int, blocked: Option<Set<usize>>) -> Option<(Seq<char>, Seq<char>)> {
    let l = bytes_slice(text, spans[i].start as int, spans[i].end as int);
    let r = bytes_slice(text, spans[i + 1].start as int, spans[i + 1].end as int);
    let lt = trim(l);
    let rt = trim(r);
    let left = lt.skip(lt.len() - min_int(SNIPPET_CHARS as int, lt.len() as int));
    let right = rt.take(min_int(SNIPPET_CHARS as int, rt.len() as int));
    if (match blocked {
        Some(b) => b.contains(i as usize),
        None => false,
    }) || !ambiguous(l, r) || left.len() == 0 || right.len() == 0 {
        None
    } else {
        Some((left, right))
    }
}

/// The candidates among the boundaries `0..j`, in order.
pub open spec fn candidates_upto(text: Seq<char>, spans: Seq<SentenceSpan>, j: int, blocked: Option<Set<usize>>) -> Seq<(int, Seq<char>, Seq<char>)>
    decreases j,
{
    if j <= 0 {
        Seq::empty()
    } else {
        let prev = candidates_upto(text, spans, j - 1, blocked);
        match candidate(text, spans, j - 1, blocked) {
            Some(c) => prev.push((j - 1, c.0, c.1)),
            None => prev,
        }
    }
}

/// The doubtful boundaries between consecutive spans that are not blocked (a blocked
/// boundary separates paragraphs), each with up to 240 characters of context per side.
pub fn boundary_candidates(text: &str, spans: &[SentenceSpan], blocked: Option<&HashSet<usize>>) -> (r: Vec<BoundaryPair>)
    requires
        fits_i32(text@),
    ensures
        r.len() == candidates_upto(text@, spans@, spans@.len() - 1, break_set(blocked)).len(),
        forall|k: int| 0 <= k < r.len() ==> {
            let c = candidates_upto(text@, spans@, spans@.len() - 1, break_set(blocked))[k];
            &&& (#[trigger] r@[k]).index == c.0
            &&& r@[k].left@ == c.1
            &&& r@[k].right@ == c.2
        },
{
    let mut out: Vec<BoundaryPair> = Vec::new();
    if spans.len() < 2 {
        return out;
    }
    let n = spans.len() - 1;
    let mut i: usize = 0;
    while i < n
        invariant
            fits_i32(text@),
            n == spans.len() - 1,
            i <= n,
            out.len() == candidates_upto(text@, spans@, i as int, break_set(blocked)).len(),
            forall|k: int| 0 <= k < out.len() ==> {
                let c = candidates_upto(text@, spans@, i as int, break_set(blocked))[k];
                &&& (#[trigger] out@[k]).index == c.0
                &&& out@[k].left@ == c.1
                &&& out@[k].right@ == c.2
            },
        decreases n - i,
    {
        let is_blocked = match blocked {
            Some(b) => b.contains(&i),
            None => false,
        };
        if !is_blocked {
            let left_full = slice_by_bytes(text, spans[i].start, spans[i].end);
            let right_full = slice_by_bytes(text, spans[i + 1].start, spans[i + 1].end);
            if is_ambiguous_boundary(left_full.as_str(), right_full.as_str()) {
                let lt = trimmed(left_full.as_str());
                let rt = trimmed(right_full.as_str());
                let left = tail_chars(lt.as_str(), SNIPPET_CHARS);
                let right = head_chars(rt.as_str(), SNIPPET_CHARS);
                if !left.as_str().is_empty() && !right.as_str().is_empty() {
                    let ghost old_out = out@;
                    out.push(BoundaryPair { index: i, left, right });
                    proof {
                        let cs = candidates_upto(text@, spans@, i + 1, break_set(blocked));
                        assert forall|k: int| 0 <= k < out.len() implies {
                            let c = cs[k];
                            &&& (#[trigger] out@[k]).index == c.0
                            &&& out@[k].left@ == c.1
                            &&& out@[k].right@ == c.2
                        } by {
                            if k < old_out.len() {
                                assert(out@[k] == old_out[k]);
                            }
                        }
                    }
                }
            }
        }
        i += 1;
    }
    out
}

/// The range of candidates sent by request number `call` (counted from 0): up to 80
/// boundaries each, at most three requests; `None` when nothing is left to send.
pub fn batch_bounds(total: usize, call: usize) -> (r: Option<(usize, usize)>)
    ensures
        match r {
            Some((a, b)) => call < MAX_CALLS && a == call * MAX_PAIRS && a < total && b == min_int(a + MAX_PAIRS, total as int),
            None => call >= MAX_CALLS || call * MAX_PAIRS >= total,
        },
{
    if call >= MAX_CALLS {
        return None;
    }
    let a = call * MAX_PAIRS;
    if a >= total {
        return None;
    }
    let b = if total - a > MAX_PAIRS { a + MAX_PAIRS } else { total };
    Some((a, b))
}

/// Some pair of `batch` is boundary `x`.
pub open spec fn in_batch(batch: Seq<BoundaryPair>, x: usize) -> bool {
    exists|j: int| 0 <= j < batch.len() && batch[j].index == x
}

/// The merge indices of an answer that belong to the boundaries that were sent.
pub fn accepted_merges(batch: &[BoundaryPair], merge_indices: &[usize]) -> (r: Vec<usize>)
    ensures
        forall|k: int| 0 <= k < r.len() ==> merge_indices@.contains(#[trigger] r@[k]) && in_batch(batch@, r@[k]),
        forall|k: int| 0 <= k < merge_indices.len() && in_batch(batch@, #[trigger] merge_indices@[k]) ==> r@.contains(merge_indices@[k]),
{
    let mut out: Vec<usize> = Vec::new();
    let mut k: usize = 0;
    while k < merge_indices.len()
        invariant
            k <= merge_indices.len(),
            forall|m: int| 0 <= m < out.len() ==> merge_indices@.contains(#[trigger] out@[m]) && in_batch(batch@, out@[m]),
            forall|m: int| 0 <= m < k && in_batch(batch@, #[trigger] merge_indices@[m]) ==> out@.contains(merge_indices@[m]),
        decreases merge_indices.len() - k,
    {
        let x = merge_indices[k];
        let mut j: usize = 0;
        let mut found = false;
        while j < batch.len() && !found
            invariant
                j <= batch.len(),
                found ==> j > 0 && batch@[j - 1].index == x,
                !found ==> forall|t: int| 0 <= t < j ==> batch@[t].index != x,
            decreases batch.len() - j,
        {
            if batch[j].index == x {
                found = true;
            }
            j += 1;
        }
        if found {
            let ghost old_out = out@;
            out.push(x);
            proof {
                assert(merge_indices@[k as int] == x);
                assert(out@[out.len() - 1] == x);
                assert forall|m: int| 0 <= m < out.len() implies merge_indices@.contains(#[trigger] out@[m]) && in_batch(batch@, out@[m]) by {
                    if m < old_out.len() {
                        assert(out@[m] == old_out[m]);
                    } else {
                        assert(batch@[j - 1].index == out@[m]);
                    }
                }
                assert forall|m: int| 0 <= m < k + 1 && in_batch(batch@, #[trigger] merge_indices@[m]) implies out@.contains(merge_indices@[m]) by {
                    if m < k {
                        assert(old_out.contains(merge_indices@[m]));
                        let w = choose|w: int| 0 <= w < old_out.len() && old_out[w] == merge_indices@[m];
                        assert(out@[w] == merge_indices@[m]);
                    } else {
                        assert(out@[out.len() - 1] == merge_indices@[m]);
                    }
                }
            }
        }
        k += 1;
    }
    out
}

/// `s` holds a character that is not whitespace.
pub open spec fn has_visible(s: Seq<char>) -> bool {
    exists|i: int| 0 <= i < s.len() && !is_ws(#[trigger] s[i])
}

fn has_visible_exec(s: &str) -> (r: bool)
    ensures
        r == has_visible(s@),
{
    let c = chars_of(s);
    let mut i: usize = 0;
    while i < c.len()
        invariant
            c@ == s@,
            i <= c.len(),
            forall|j: int| 0 <= j < i ==> is_ws(#[trigger] c@[j]),
        decreases c.len() - i,
    {
        if !is_whitespace(c[i]) {
            assert(!is_ws(c@[i as int]));
            return true;
        }
        i += 1;
    }
    false
}

/// A span of a paragraph's own text, moved to the paragraph's place in the document.
pub open spec fn shifted(s: SentenceSpan, base: i32) -> SentenceSpan {
    SentenceSpan { start: (s.start + base) as i32, end: (s.end + base) as i32 }
}

/// The span is valid and stays within `i32` once moved by `base`.
pub open spec fn usable(s: SentenceSpan, base: i32) -> bool {
    0 <= s.start <= s.end && s.end + base <= i32::MAX && s.start + base >= 0
}

/// The sentence spans of the paragraphs that are to be detected, in document order,
/// and the hard breaks between them: `spans` and `breaks` are what the first `k`
/// paragraphs contribute, given the spans `local[i]` found in paragraph `i`'s own text.
pub open spec fn collected(
    text: Seq<char>,
    paragraphs: Seq<TextBlock>,
    local: Seq<Vec<SentenceSpan>>,
    k: int,
) -> (Seq<SentenceSpan>, Set<usize>, Option<i32>)
    decreases k,
{
    if k <= 0 {
        (Seq::empty(), Set::empty(), None)
    } else {
        let prev = collected(text, paragraphs, local, k - 1);
        let p = paragraphs[k - 1];
        let kept = local[k - 1]@.filter(|s: SentenceSpan| usable(s, p.start));
        let para_text = bytes_slice(text, p.start as int, p.end as int);
        if !p.need_detect || !has_visible(para_text) || kept.len() == 0 {
            prev
        } else {
            let gap_break = prev.0.len() > 0 && prev.2 is Some && has_visible(
                bytes_slice(text, prev.2->0 as int, p.start as int),
            );
            (
                prev.0 + kept.map_values(|s: SentenceSpan| shifted(s, p.start)),
                if gap_break { prev.1.insert((prev.0.len() - 1) as usize) } else { prev.1 },
                Some(p.end),
            )
        }
    }
}

/// Gathers the sentence spans of the paragraphs to be detected into one list over the
/// document: `local[i]` holds the spans found in paragraph `i`'s own text, and invalid
/// spans are dropped. Where filtered-out text lies between two kept paragraphs, the
/// boundary between their spans becomes a hard break.
pub fn collect_paragraph_spans(
    text: &str,
    paragraphs: &[TextBlock],
    local: &[Vec<SentenceSpan>],
) -> (r: (Vec<SentenceSpan>, HashSet<usize>))
    requires
        fits_i32(text@),
        paragraphs.len() == local.len(),
    ensures
        r.0@ == collected(text@, paragraphs@, local@, paragraphs@.len() as int).0,
        r.1@ == collected(text@, paragraphs@, local@, paragraphs@.len() as int).1,
{
    let mut spans: Vec<SentenceSpan> = Vec::new();
    let mut breaks: HashSet<usize> = HashSet::new();
    let mut prev_end: Option<i32> = None;
    let mut i: usize = 0;
    while i < paragraphs.len()
        invariant
            fits_i32(text@),
            paragraphs.len() == local.len(),
            i <= paragraphs.len(),
            spans@ == collected(text@, paragraphs@, local@, i as int).0,
            breaks@ == collected(text@, paragraphs@, local@, i as int).1,
            prev_end == collected(text@, paragraphs@, local@, i as int).2,
        decreases paragraphs.len() - i,
    {
        let p = &paragraphs[i];
        let para_text = slice_by_bytes(text, p.start, p.end);
        let ls = &local[i];
        let ghost kept = ls@.filter(|s: SentenceSpan| usable(s, p.start));
        let mut shifted_spans: Vec<SentenceSpan> = Vec::new();
        let mut j: usize = 0;
        while j < ls.len()
            invariant
                j <= ls.len(),
                shifted_spans@ == ls@.take(j as int).filter(|s: SentenceSpan| usable(s, p.start)).map_values(
                    |s: SentenceSpan| shifted(s, p.start),
                ),
            decreases ls.len() - j,
        {
            let s = ls[j];
            proof {
                let f = |s: SentenceSpan| usable(s, p.start);
                assert(ls@.take(j + 1).drop_last() =~= ls@.take(j as int));
                assert(ls@.take(j + 1).last() == s);
                reveal(Seq::filter);
                assert(ls@.take(j + 1).filter(f) == (if f(s) { ls@.take(j as int).filter(f).push(s) } else { ls@.take(j as int).filter(f) }));
            }
            if s.start >= 0 && s.start <= s.end && (s.end as i64) + (p.start as i64) <= i32::MAX as i64
                && (s.start as i64) + (p.start as i64) >= 0 {
                let moved = SentenceSpan { start: s.start + p.start, end: s.end + p.start };
                shifted_spans.push(moved);
                assert(moved == shifted(s, p.start));
            }
            proof {
                let f = |s: SentenceSpan| usable(s, p.start);
                let g = |s: SentenceSpan| shifted(s, p.start);
                assert(shifted_spans@ =~= ls@.take(j + 1).filter(f).map_values(g));
            }
            j += 1;
        }
        proof {
            assert(ls@.take(ls.len() as int) =~= ls@);
        }
        if p.need_detect && has_visible_exec(para_text.as_str()) && shifted_spans.len() > 0 {
            if spans.len() > 0 {
                match prev_end {
                    Some(pe) => {
                        let gap = slice_by_bytes(text, pe, p.start);
                        if has_visible_exec(gap.as_str()) {
                            breaks.insert(spans.len() - 1);
                        }
                    },
                    None => {},
                }
            }
            let ghost old_spans = spans@;
            let mut t: usize = 0;
            while t < shifted_spans.len()
                invariant
                    t <= shifted_spans.len(),
                    spans@ == old_spans + shifted_spans@.take(t as int),
                decreases shifted_spans.len() - t,
            {
                spans.push(shifted_spans[t]);
                assert(shifted_spans@.take(t + 1) =~= shifted_spans@.take(t as int).push(shifted_spans@[t as int]));
                t += 1;
            }
            assert(shifted_spans@.take(shifted_spans.len() as int) =~= shifted_spans@);
            prev_end = Some(p.end);
        }
        i += 1;
    }
    (spans, breaks)
}

} // verus!
