//! Greedy packing of consecutive sentences into detection blocks.
use vstd::prelude::*;
use crate::sentences::{SentenceOffset, sentence_cuts, split_sentences_advanced};
use crate::text::{byte_offset, fits_i32, slice_by_bytes, char_count, lemma_snapped_exact, lemma_len_le_bytes, lemma_offset_bounded, lemma_offset_mono};

verus! {

/// Sum of `lens[a..b]`.
pub open spec fn sum_range(lens: Seq<usize>, a: int, b: int) -> nat
    decreases b - a,
{
    if b <= a {
        0
    } else {
        sum_range(lens, a, b - 1) + lens[b - 1] as nat
    }
}

/// Number of non-empty items in `lens[a..b]`.
pub open spec fn count_nonzero(lens: Seq<usize>, a: int, b: int) -> nat
    decreases b - a,
{
    if b <= a {
        0
    } else {
        count_nonzero(lens, a, b - 1) + if lens[b - 1] > 0 {
            1nat
        } else {
            0nat
        }
    }
}

/// A break stands before one of the items `(a, b]`.
pub open spec fn break_between(brk: Seq<bool>, a: int, b: int) -> bool {
    exists|i: int| a < i <= b && #[trigger] brk[i]
}

/// A run `(first, last)` of items: it starts and ends on non-empty items, holds at
/// most `target` characters unless it is a single item, holds an item longer than `max`
/// only alone, and reaches across no break.
pub open spec fn run_ok(lens: Seq<usize>, brk: Seq<bool>, target: int, max: int, g: (usize, usize)) -> bool {
    &&& g.0 <= g.1 < lens.len()
    &&& lens[g.0 as int] > 0
    &&& lens[g.1 as int] > 0
    &&& forall|i: int| g.0 <= i <= g.1 && #[trigger] lens[i] > max ==> g.0 == g.1
    &&& g.0 < g.1 ==> sum_range(lens, g.0 as int, g.1 + 1) <= target
    &&& !break_between(brk, g.0 as int, g.1 as int)
}

/// The run `g` is closed and the next one starts at item `f`: only empty items lie
/// between them, and one of the rules forced the new run.
pub open spec fn gap_ok(lens: Seq<usize>, brk: Seq<bool>, target: int, max: int, g: (usize, usize), f: int) -> bool {
    &&& g.1 < f < lens.len()
    &&& forall|i: int| g.1 < i < f ==> lens[i] == 0
    &&& {
        ||| lens[f] > max
        ||| (g.0 == g.1 && lens[g.0 as int] > max)
        ||| sum_range(lens, g.0 as int, g.1 + 1) + lens[f] > target
        ||| break_between(brk, g.1 as int, f)
    }
}

/// `groups` packs the items of lengths `lens` into runs, in order and greedily, skipping
/// empty items: every run is `run_ok`, consecutive runs are `gap_ok`, and no non-empty
/// item is left out.
#[verifier::opaque]
pub open spec fn packed(
    lens: Seq<usize>,
    brk: Seq<bool>,
    target: int,
    max: int,
    groups: Seq<(usize, usize)>,
) -> bool {
    &&& forall|k: int| 0 <= k < groups.len() ==> run_ok(lens, brk, target, max, #[trigger] groups[k])
    &&& forall|k: int|
        0 <= k < groups.len() - 1 ==> gap_ok(lens, brk, target, max, #[trigger] groups[k], groups[k + 1].0 as int)
    &&& groups.len() == 0 ==> forall|i: int| 0 <= i < lens.len() ==> lens[i] == 0
    &&& groups.len() > 0 ==> {
        &&& forall|i: int| 0 <= i < groups[0].0 ==> lens[i] == 0
        &&& forall|i: int| groups.last().1 < i < lens.len() ==> lens[i] == 0
    }
}

proof fn lemma_sum_step(lens: Seq<usize>, a: int, b: int)
    requires
        a <= b,
    ensures
        sum_range(lens, a, b + 1) == sum_range(lens, a, b) + lens[b] as nat,
        count_nonzero(lens, a, b + 1) == count_nonzero(lens, a, b) + if lens[b] > 0 {
            1nat
        } else {
            0nat
        },
{
}

proof fn lemma_sum_zero_tail(lens: Seq<usize>, a: int, b: int, c: int)
    requires
        a <= b <= c <= lens.len(),
        forall|i: int| b <= i < c ==> lens[i] == 0,
    ensures
        sum_range(lens, a, c) == sum_range(lens, a, b),
        count_nonzero(lens, a, c) == count_nonzero(lens, a, b),
    decreases c - b,
{
    if b < c {
        lemma_sum_zero_tail(lens, a, b, c - 1);
    }
}

/// Packs items of the given lengths into runs; see `packed`.
pub fn pack_groups(lens: &Vec<usize>, brk: &Vec<bool>, target: usize, max: usize) -> (r: Vec<(usize, usize)>)
    requires
        lens.len() == brk.len(),
    ensures
        packed(lens@, brk@, target as int, max as int, r@),
        r.len() <= lens.len(),
{
    let n = lens.len();
    let ghost ls = lens@;
    let ghost bs = brk@;
    let mut groups: Vec<(usize, usize)> = Vec::new();
    let mut has_cur = false;
    let mut cf: usize = 0;
    let mut cl: usize = 0;
    let mut cur_chars: usize = 0;
    let mut idx: usize = 0;
    while idx < n
        invariant
            ls == lens@,
            bs == brk@,
            n == ls.len() == bs.len(),
            idx <= n,
            forall|k: int| 0 <= k < groups.len() ==> run_ok(ls, bs, target as int, max as int, #[trigger] groups@[k]),
            forall|k: int| 0 <= k < groups.len() ==> (#[trigger] groups@[k]).1 < idx,
            forall|k: int|
                0 <= k < groups.len() - 1 ==> gap_ok(ls, bs, target as int, max as int, #[trigger] groups@[k], groups@[k + 1].0 as int),
            groups.len() > 0 ==> forall|i: int| 0 <= i < groups@[0].0 ==> ls[i] == 0,
            has_cur ==> groups.len() <= cf,
            groups.len() <= idx,
            has_cur ==> {
                &&& run_ok(ls, bs, target as int, max as int, (cf, cl))
                &&& cl < idx
                &&& forall|i: int| cl < i < idx ==> ls[i] == 0
                &&& cur_chars == sum_range(ls, cf as int, cl + 1)
                &&& forall|i: int| cf <= i <= cl ==> #[trigger] ls[i] <= max
                &&& forall|i: int| cf < i < idx ==> !#[trigger] bs[i]
                &&& groups.len() > 0 ==> gap_ok(ls, bs, target as int, max as int, groups@.last(), cf as int)
                &&& groups.len() == 0 ==> forall|i: int| 0 <= i < cf ==> ls[i] == 0
            },
            !has_cur ==> {
                &&& groups.len() == 0 ==> forall|i: int| 0 <= i < idx ==> ls[i] == 0
                &&& groups.len() > 0 ==> forall|i: int| groups@.last().1 < i < idx ==> ls[i] == 0
                &&& groups.len() > 0 ==> {
                    ||| (groups@.last().0 == groups@.last().1 && ls[groups@.last().0 as int] > max)
                    ||| break_between(bs, groups@.last().1 as int, idx - 1)
                }
            },
        decreases n - idx,
    {
        if has_cur && brk[idx] {
            proof {
                assert(bs[idx as int]);
                assert(break_between(bs, cl as int, idx as int));
                if groups.len() > 0 {
                    assert(gap_ok(ls, bs, target as int, max as int, groups@.last(), cf as int));
                }
            }
            groups.push((cf, cl));
            has_cur = false;
            cur_chars = 0;
            proof {
                assert(break_between(bs, cl as int, idx as int));
            }
        }
        let l = lens[idx];
        if l == 0 {
            proof {
                if !has_cur && groups.len() > 0 && !(groups@.last().0 == groups@.last().1 && ls[groups@.last().0 as int] > max) {
                    let w = choose|i: int| groups@.last().1 < i <= idx - 1 + 1 && #[trigger] bs[i];
                    assert(groups@.last().1 < w <= idx && bs[w]);
                }
            }
            idx += 1;
            continue;
        }
        if l > max {
            if has_cur {
                groups.push((cf, cl));
                has_cur = false;
                cur_chars = 0;
            }
            groups.push((idx, idx));
            idx += 1;
            continue;
        }
        if !has_cur {
            proof {
                lemma_sum_step(ls, idx as int, idx as int);
                if groups.len() > 0 && bs[idx as int] {
                    assert(break_between(bs, groups@.last().1 as int, idx as int));
                } else if groups.len() > 0 && !(groups@.last().0 == groups@.last().1 && ls[groups@.last().0 as int] > max) {
                    let w = choose|i: int| groups@.last().1 < i <= idx - 1 && #[trigger] bs[i];
                    assert(groups@.last().1 < w <= idx && bs[w]);
                }
            }
            cf = idx;
            cl = idx;
            cur_chars = l;
            has_cur = true;
        } else if cur_chars <= target && l <= target - cur_chars {
            proof {
                lemma_sum_zero_tail(ls, cf as int, cl + 1, idx as int);
                lemma_sum_step(ls, cf as int, idx as int);
            }
            cl = idx;
            cur_chars = cur_chars + l;
            assert(!bs[idx as int]);
        } else {
            proof {
                assert(!bs[idx as int]);
                lemma_sum_step(ls, idx as int, idx as int);
                lemma_sum_zero_tail(ls, cf as int, cl + 1, idx as int);
            }
            groups.push((cf, cl));
            cf = idx;
            cl = idx;
            cur_chars = l;
        }
        idx += 1;
    }
    if has_cur {
        groups.push((cf, cl));
    }
    proof {
        reveal(packed);
    }
    groups
}

/// A detection block: the byte range `[start, end)` of the text it was cut from, the
/// exact text of that range, and how many sentences it packs.
#[derive(Debug, Clone)]
pub struct TextBlock {
    pub index: i32,
    pub label: String,
    pub need_detect: bool,
    pub merge_with_prev: bool,
    pub start: i32,
    pub end: i32,
    pub text: String,
    pub sentence_count: Option<i32>,
}

/// No item marked as a break.
pub open spec fn no_breaks(n: nat) -> Seq<bool> {
    Seq::new(n, |i: int| false)
}

/// Character counts of the sentences' texts.
pub open spec fn sentence_lens(sents: Seq<SentenceOffset>) -> Seq<usize> {
    Seq::new(sents.len(), |i: int| sents[i].text@.len() as usize)
}

/// Block `b`, the `k`-th, packs the sentences `g.0..=g.1` of `text`, which `cuts` delimits.
pub open spec fn sentence_block(
    text: Seq<char>,
    sents: Seq<SentenceOffset>,
    cuts: Seq<int>,
    g: (usize, usize),
    k: int,
    b: TextBlock,
) -> bool {
    &&& b.index == k
    &&& b.label@ == "sentence_block"@
    &&& b.need_detect
    &&& !b.merge_with_prev
    &&& b.start == sents[g.0 as int].start
    &&& b.end == sents[g.1 as int].end
    &&& b.text@ == text.subrange(cuts[g.0 as int], cuts[g.1 + 1])
    &&& b.sentence_count == Some((g.1 - g.0 + 1) as i32)
}

/// The block text is the exact slice of the text between the block's byte offsets,
/// which fall on character boundaries.
pub open spec fn exact_slice(text: Seq<char>, b: TextBlock) -> bool {
    exists|cs: int, ce: int|
        0 <= cs < ce <= text.len() && b.start == byte_offset(text, cs) && b.end == #[trigger] byte_offset(
            text,
            ce,
        ) && b.text@ == #[trigger] text.subrange(cs, ce)
}

proof fn lemma_cuts_grow(cuts: Seq<int>, n: int, k: int)
    requires
        cuts.len() == n + 1,
        cuts[0] == 0,
        forall|j: int| 0 <= j < n ==> #[trigger] cuts[j] < cuts[j + 1],
        0 <= k <= n,
    ensures
        cuts[k] >= k,
    decreases k,
{
    if k > 0 {
        lemma_cuts_grow(cuts, n, k - 1);
        assert(cuts[k - 1] < cuts[k]);
    }
}

/// Splits `text` into sentences and packs them greedily into blocks of at most
/// `target_chars` characters (counted in characters, not bytes); a sentence longer
/// than `max_chars` becomes a block of its own.
pub fn build_sentence_blocks(text: &str, _min_chars: usize, target_chars: usize, max_chars: usize) -> (r: Vec<TextBlock>)
    requires
        fits_i32(text@),
    ensures
        exists|sents: Seq<SentenceOffset>, cuts: Seq<int>, groups: Seq<(usize, usize)>|
            #[trigger] sentence_cuts(text@, sents, cuts) && #[trigger] packed(
                sentence_lens(sents),
                no_breaks(sents.len()),
                target_chars as int,
                max_chars as int,
                groups,
            ) && r.len() == groups.len() && forall|k: int|
                0 <= k < r.len() ==> sentence_block(text@, sents, cuts, groups[k], k, #[trigger] r[k]),
        forall|k: int| 0 <= k < r.len() ==> exact_slice(text@, #[trigger] r[k]),
{
    let sents = split_sentences_advanced(text);
    let ghost cuts = choose|cuts: Seq<int>| sentence_cuts(text@, sents@, cuts);
    let n = sents.len();
    proof {
        lemma_sents_bound(text@, sents@, cuts);
        lemma_len_le_bytes(text@);
    }
    let mut lens: Vec<usize> = Vec::new();
    let mut brk: Vec<bool> = Vec::new();
    let mut i: usize = 0;
    while i < n
        invariant
            n == sents.len(),
            i <= n,
            lens.len() == i,
            brk.len() == i,
            forall|j: int| 0 <= j < i ==> lens@[j] == sents@[j].text@.len(),
            forall|j: int| 0 <= j < i ==> !brk@[j],
        decreases n - i,
    {
        lens.push(char_count(sents[i].text.as_str()));
        brk.push(false);
        i += 1;
    }
    assert(lens@ =~= sentence_lens(sents@));
    assert(brk@ =~= no_breaks(sents@.len()));
    let groups = pack_groups(&lens, &brk, target_chars, max_chars);
    let mut blocks: Vec<TextBlock> = Vec::new();
    let mut k: usize = 0;
    while k < groups.len()
        invariant
            fits_i32(text@),
            sentence_cuts(text@, sents@, cuts),
            packed(lens@, brk@, target_chars as int, max_chars as int, groups@),
            lens@ == sentence_lens(sents@),
            n == sents.len(),
            n <= text@.len() <= i32::MAX,
            groups.len() <= n,
            lens.len() == n,
            k <= groups.len(),
            blocks.len() == k,
            forall|j: int| 0 <= j < k ==> sentence_block(text@, sents@, cuts, groups@[j], j, #[trigger] blocks@[j]),
            forall|j: int| 0 <= j < k ==> exact_slice(text@, #[trigger] blocks@[j]),
        decreases groups.len() - k,
    {
        let g = groups[k];
        proof {
            lemma_block_facts(text@, sents@, cuts, lens@, brk@, target_chars as int, max_chars as int, groups@, k as int);
        }
        let start = sents[g.0].start;
        let end = sents[g.1].end;
        let ghost a = cuts[g.0 as int];
        let ghost b = cuts[g.1 + 1];
        proof {
            lemma_offset_bounded(text@, a);
            lemma_offset_bounded(text@, b);
            lemma_snapped_exact(text@, a, b);
            lemma_offset_mono(text@, a, b);
        }
        let t = slice_by_bytes(text, start, end);
        let blk = TextBlock {
            index: k as i32,
            label: "sentence_block".to_string(),
            need_detect: true,
            merge_with_prev: false,
            start,
            end,
            text: t,
            sentence_count: Some((g.1 - g.0 + 1) as i32),
        };
        assert(blk.label@ == "sentence_block"@);
        assert(blk.text@ == text@.subrange(a, b));
        assert(blk.index == k);
        assert(blk.sentence_count == Some((g.1 - g.0 + 1) as i32));
        assert(blk.start == sents@[g.0 as int].start);
        assert(sentence_block(text@, sents@, cuts, g, k as int, blk));
        assert(exact_slice(text@, blk));
        blocks.push(blk);
        k += 1;
    }
    assert(sentence_cuts(text@, sents@, cuts) && packed(
        sentence_lens(sents@),
        no_breaks(sents@.len()),
        target_chars as int,
        max_chars as int,
        groups@,
    ));
    blocks
}

proof fn lemma_sents_bound(text: Seq<char>, sents: Seq<SentenceOffset>, cuts: Seq<int>)
    requires
        sentence_cuts(text, sents, cuts),
    ensures
        sents.len() <= text.len(),
{
    reveal(sentence_cuts);
    assert forall|j: int| 0 <= j < sents.len() implies #[trigger] cuts[j] < cuts[j + 1] by {
        assert(sents[j].start == byte_offset(text, cuts[j]));
    }
    lemma_cuts_grow(cuts, sents.len() as int, sents.len() as int);
    if sents.len() > 0 {
        assert(sents[sents.len() - 1].start == byte_offset(text, cuts[sents.len() - 1]));
    }
}

proof fn lemma_block_facts(
    text: Seq<char>,
    sents: Seq<SentenceOffset>,
    cuts: Seq<int>,
    lens: Seq<usize>,
    brk: Seq<bool>,
    target: int,
    max: int,
    groups: Seq<(usize, usize)>,
    k: int,
)
    requires
        sentence_cuts(text, sents, cuts),
        packed(lens, brk, target, max, groups),
        lens == sentence_lens(sents),
        0 <= k < groups.len(),
    ensures
        groups[k].0 <= groups[k].1 < sents.len(),
        0 <= cuts[groups[k].0 as int] < cuts[groups[k].1 + 1] <= text.len(),
        sents[groups[k].0 as int].start == byte_offset(text, cuts[groups[k].0 as int]),
        sents[groups[k].1 as int].end == byte_offset(text, cuts[groups[k].1 + 1]),
{
    reveal(packed);
    reveal(sentence_cuts);
    let g = groups[k];
    assert(run_ok(lens, brk, target, max, g));
    assert(cuts[g.1 as int] < cuts[g.1 + 1]);
    assert(sents[g.0 as int].start == byte_offset(text, cuts[g.0 as int]));
    assert(sents[g.1 as int].end == byte_offset(text, cuts[g.1 + 1]));
    assert forall|j: int| 0 <= j < sents.len() implies #[trigger] cuts[j] < cuts[j + 1] by {
        assert(sents[j].start == byte_offset(text, cuts[j]));
    }
    lemma_cuts_order(cuts, sents.len() as int, g.0 as int, g.1 as int);
}

proof fn lemma_cuts_order(cuts: Seq<int>, n: int, a: int, b: int)
    requires
        cuts.len() == n + 1,
        forall|j: int| 0 <= j < n ==> #[trigger] cuts[j] < cuts[j + 1],
        0 <= a <= b <= n,
    ensures
        cuts[a] <= cuts[b],
    decreases b - a,
{
    if a < b {
        lemma_cuts_order(cuts, n, a, b - 1);
        assert(cuts[b - 1] < cuts[b]);
    }
}

/// A sentence returned by the sentence-splitting service.
#[derive(Debug, Clone)]
pub struct SentenceResult {
    pub text: String,
    pub start: i32,
    pub end: i32,
}

/// A block of sentences returned by the sentence-splitting service.
#[derive(Debug, Clone)]
pub struct SentenceBlock {
    pub index: i32,
    pub label: String,
    pub need_detect: bool,
    pub merge_with_prev: bool,
    pub start: i32,
    pub end: i32,
    pub text: String,
    pub sentence_count: i32,
}

/// A paragraph returned by the paragraph-splitting service.
#[derive(Debug, Clone)]
pub struct ParagraphResult {
    pub text: String,
    pub start: i32,
    pub end: i32,
}

/// A block of paragraphs returned by the paragraph-splitting service.
#[derive(Debug, Clone)]
pub struct ParagraphBlock {
    pub index: i32,
    pub label: String,
    pub need_detect: bool,
    pub merge_with_prev: bool,
    pub start: i32,
    pub end: i32,
    pub text: String,
    pub paragraph_count: i32,
}

impl TextBlock {
    /// The block that a sentence block of the service stands for.
    pub fn from_sentence_block(block: SentenceBlock) -> (r: TextBlock)
        ensures
            r.index == block.index && r.label == block.label && r.need_detect == block.need_detect,
            r.merge_with_prev == block.merge_with_prev && r.start == block.start && r.end == block.end,
            r.text == block.text && r.sentence_count == Some(block.sentence_count),
    {
        TextBlock {
            index: block.index,
            label: block.label,
            need_detect: block.need_detect,
            merge_with_prev: block.merge_with_prev,
            start: block.start,
            end: block.end,
            text: block.text,
            sentence_count: Some(block.sentence_count),
        }
    }

    /// The block that a paragraph block of the service stands for; its count of
    /// paragraphs takes the place of the count of sentences.
    pub fn from_paragraph_block(block: ParagraphBlock) -> (r: TextBlock)
        ensures
            r.index == block.index && r.label == block.label && r.need_detect == block.need_detect,
            r.merge_with_prev == block.merge_with_prev && r.start == block.start && r.end == block.end,
            r.text == block.text && r.sentence_count == Some(block.paragraph_count),
    {
        TextBlock {
            index: block.index,
            label: block.label,
            need_detect: block.need_detect,
            merge_with_prev: block.merge_with_prev,
            start: block.start,
            end: block.end,
            text: block.text,
            sentence_count: Some(block.paragraph_count),
        }
    }
}

/// Where the sentence- and paragraph-splitting service listens.
#[derive(Debug, Clone)]
pub struct TextSegmenterClient {
    base_url: String,
}

impl TextSegmenterClient {
    pub closed spec fn spec_base_url(&self) -> Seq<char> {
        self.base_url@
    }

    pub fn new(base_url: &str) -> (r: Self)
        ensures
            r.spec_base_url() == base_url@,
    {
        TextSegmenterClient { base_url: base_url.to_owned() }
    }

    pub fn base_url(&self) -> (r: &str)
        ensures
            r@ == self.spec_base_url(),
    {
        self.base_url.as_str()
    }
}

} // verus!
