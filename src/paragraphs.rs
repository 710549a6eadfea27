//! Paragraph blocks: the text split at blank lines, with byte-exact offsets.
use vstd::prelude::*;
use crate::blocks::{TextBlock, exact_slice};
use crate::sentences::{is_ws, is_whitespace, trim, lemma_trim_start, lemma_trim_end};
use crate::text::{byte_offset, byte_len, is_boundary, chars_of, char_width, fits_i32, string_of, lemma_offset_step, lemma_offset_zero, lemma_offset_bounded, lemma_offset_full, lemma_offset_mono, lemma_len_le_bytes};

verus! {

/// Number of line feeds in the run of whitespace that ends just before index `j`.
pub open spec fn newlines_before(s: Seq<char>, j: int) -> nat
    decreases j,
{
    if j <= 0 || j > s.len() || !is_ws(s[j - 1]) {
        0
    } else {
        newlines_before(s, j - 1) + if s[j - 1] == '\n' {
            1nat
        } else {
            0nat
        }
    }
}

/// The paragraph `[cs, ce)` of `s`: it starts and ends with a non-whitespace character
/// and holds no blank line (no whitespace run with two line feeds).
pub open spec fn paragraph_at(s: Seq<char>, cs: int, ce: int) -> bool {
    &&& 0 <= cs < ce <= s.len()
    &&& !is_ws(s[cs])
    &&& !is_ws(s[ce - 1])
    &&& forall|j: int| cs < j < ce && !is_ws(#[trigger] s[j]) ==> newlines_before(s, j) < 2
}

pub open spec fn all_ws(s: Seq<char>, a: int, b: int) -> bool {
    forall|j: int| a <= j < b ==> is_ws(#[trigger] s[j])
}

/// Between the paragraphs `k` and `k + 1` lies only whitespace, holding a blank line.
pub open spec fn gap_at(s: Seq<char>, cuts: Seq<(int, int)>, k: int) -> bool {
    &&& cuts[k].1 < cuts[k + 1].0
    &&& all_ws(s, cuts[k].1, cuts[k + 1].0)
    &&& newlines_before(s, cuts[k + 1].0) >= 2
}

/// The closed paragraphs so far: each is a paragraph, and consecutive ones are
/// separated by a blank line.
#[verifier::opaque]
pub open spec fn cuts_in_order(s: Seq<char>, cuts: Seq<(int, int)>) -> bool {
    &&& forall|k: int| 0 <= k < cuts.len() ==> paragraph_at(s, (#[trigger] cuts[k]).0, cuts[k].1)
    &&& forall|k: int| 0 <= k < cuts.len() - 1 ==> #[trigger] gap_at(s, cuts, k)
}

/// `cuts` lists the paragraphs of `s` in order: what lies between two of them is
/// whitespace holding a blank line, and what lies before the first and after the last
/// is whitespace.
pub open spec fn paragraph_cuts(s: Seq<char>, cuts: Seq<(int, int)>) -> bool {
    &&& cuts_in_order(s, cuts)
    &&& cuts.len() == 0 ==> all_ws(s, 0, s.len() as int)
    &&& cuts.len() > 0 ==> all_ws(s, 0, cuts[0].0) && all_ws(s, cuts.last().1, s.len() as int)
}

proof fn lemma_push_cut(s: Seq<char>, cuts: Seq<(int, int)>, c: (int, int))
    requires
        cuts_in_order(s, cuts),
        paragraph_at(s, c.0, c.1),
        cuts.len() > 0 ==> cuts.last().1 < c.0 && all_ws(s, cuts.last().1, c.0) && newlines_before(s, c.0) >= 2,
    ensures
        cuts_in_order(s, cuts.push(c)),
        cuts_in_order(s, cuts) && cuts.len() > 0 ==> cuts.push(c)[0] == cuts[0],
{
    reveal(cuts_in_order);
    let nc = cuts.push(c);
    assert forall|k: int| 0 <= k < nc.len() implies paragraph_at(s, (#[trigger] nc[k]).0, nc[k].1) by {
        if k < cuts.len() {
            assert(nc[k] == cuts[k]);
        }
    }
    assert forall|k: int| 0 <= k < nc.len() - 1 implies #[trigger] gap_at(s, nc, k) by {
        assert(nc[k] == cuts[k]);
        if k + 1 < cuts.len() {
            assert(nc[k + 1] == cuts[k + 1]);
            assert(gap_at(s, cuts, k));
        }
    }
}

proof fn lemma_cut_bound(s: Seq<char>, cuts: Seq<(int, int)>, k: int)
    requires
        cuts_in_order(s, cuts),
        0 <= k < cuts.len(),
    ensures
        0 <= cuts[k].0 < cuts[k].1 <= s.len(),
{
    reveal(cuts_in_order);
    assert(paragraph_at(s, cuts[k].0, cuts[k].1));
}

/// Block `b`, the `k`-th, is the paragraph `[c.0, c.1)` of `s`.
pub open spec fn paragraph_block(s: Seq<char>, c: (int, int), k: int, b: TextBlock) -> bool {
    &&& b.index == k
    &&& b.label@ == "body"@
    &&& b.need_detect
    &&& !b.merge_with_prev
    &&& b.start == byte_offset(s, c.0)
    &&& b.end == byte_offset(s, c.1)
    &&& b.text@ == s.subrange(c.0, c.1)
    &&& b.sentence_count is None
}

/// Splits `text` at blank lines (a line feed, any whitespace, and another line feed);
/// each non-blank paragraph becomes a block holding its exact text without surrounding
/// whitespace, with its byte offsets. A text that is empty or only whitespace gives no
/// block.
pub fn build_paragraph_blocks(text: &str) -> (r: Vec<TextBlock>)
    requires
        fits_i32(text@),
    ensures
        exists|cuts: Seq<(int, int)>|
            #[trigger] paragraph_cuts(text@, cuts) && r.len() == cuts.len() && forall|k: int|
                0 <= k < r.len() ==> paragraph_block(text@, cuts[k], k, #[trigger] r[k]),
        forall|k: int| 0 <= k < r.len() ==> exact_slice(text@, #[trigger] r[k]),
{
    let chars = chars_of(text);
    let ghost s = chars@;
    let n = chars.len();
    let mut blocks: Vec<TextBlock> = Vec::new();
    let ghost mut cuts: Seq<(int, int)> = Seq::empty();
    let mut open = false;
    let mut cs: usize = 0;
    let mut cs_b: usize = 0;
    let mut le: usize = 0;
    let mut le_b: usize = 0;
    let mut run_nl: usize = 0;
    let mut pos_b: usize = 0;
    let mut i: usize = 0;
    proof {
        lemma_offset_zero(s);
        lemma_len_le_bytes(s);
        reveal(cuts_in_order);
    }
    while i < n
        invariant
            s == chars@,
            s == text@,
            n == s.len(),
            fits_i32(s),
            n <= byte_len(s),
            i <= n,
            pos_b == byte_offset(s, i as int),
            run_nl == newlines_before(s, i as int),
            run_nl <= i,
            blocks.len() == cuts.len(),
            forall|k: int| 0 <= k < cuts.len() ==> paragraph_block(s, cuts[k], k, #[trigger] blocks@[k]),
            cuts_in_order(s, cuts),
            cuts.len() > 0 ==> cuts.last().1 <= i,
            cuts.len() <= i,
            open ==> cuts.len() <= cs,
            cuts.len() > 0 ==> all_ws(s, 0, cuts[0].0),
            !open ==> cuts.len() == 0 && all_ws(s, 0, i as int),
            open ==> {
                &&& cs < le <= i
                &&& cs_b == byte_offset(s, cs as int)
                &&& le_b == byte_offset(s, le as int)
                &&& paragraph_at(s, cs as int, le as int)
                &&& all_ws(s, le as int, i as int)
                &&& cuts.len() > 0 ==> {
                    &&& cuts.last().1 < cs
                    &&& all_ws(s, cuts.last().1, cs as int)
                    &&& newlines_before(s, cs as int) >= 2
                }
                &&& cuts.len() == 0 ==> all_ws(s, 0, cs as int)
            },
        decreases n - i,
    {
        let c = chars[i];
        proof {
            lemma_offset_step(s, i as int);
            lemma_offset_bounded(s, i + 1);
        }
        let w = char_width(c);
        if is_whitespace(c) {
            if c == '\n' {
                run_nl += 1;
            }
        } else {
            if open && run_nl >= 2 {
                proof {
                    lemma_offset_bounded(s, cs as int);
                    lemma_offset_bounded(s, le as int);
                    lemma_offset_mono(s, cs as int, le as int);
                }
                let t = string_of(&chars, cs, le);
                let blk = TextBlock {
                    index: blocks.len() as i32,
                    label: "body".to_string(),
                    need_detect: true,
                    merge_with_prev: false,
                    start: cs_b as i32,
                    end: le_b as i32,
                    text: t,
                    sentence_count: None,
                };
                let ghost old_cuts = cuts;
                let ghost old_blocks = blocks@;
                blocks.push(blk);
                proof {
                    cuts = cuts.push((cs as int, le as int));
                    assert forall|k: int| 0 <= k < cuts.len() implies paragraph_block(s, cuts[k], k, #[trigger] blocks@[k]) by {
                        if k < old_cuts.len() {
                            assert(cuts[k] == old_cuts[k]);
                            assert(blocks@[k] == old_blocks[k]);
                        }
                    }
                    lemma_push_cut(s, old_cuts, (cs as int, le as int));
                }
                cs = i;
                cs_b = pos_b;
            } else if !open {
                cs = i;
                cs_b = pos_b;
                open = true;
            } else {
                assert(newlines_before(s, i as int) < 2);
            }
            le = i + 1;
            le_b = pos_b + w;
            run_nl = 0;
        }
        pos_b = pos_b + w;
        i += 1;
    }
    if open {
        proof {
            lemma_offset_bounded(s, cs as int);
            lemma_offset_bounded(s, le as int);
        }
        let t = string_of(&chars, cs, le);
        let blk = TextBlock {
            index: blocks.len() as i32,
            label: "body".to_string(),
            need_detect: true,
            merge_with_prev: false,
            start: cs_b as i32,
            end: le_b as i32,
            text: t,
            sentence_count: None,
        };
        let ghost old_cuts = cuts;
        let ghost old_blocks = blocks@;
        blocks.push(blk);
        proof {
            cuts = cuts.push((cs as int, le as int));
            assert forall|k: int| 0 <= k < cuts.len() implies paragraph_block(s, cuts[k], k, #[trigger] blocks@[k]) by {
                if k < old_cuts.len() {
                    assert(cuts[k] == old_cuts[k]);
                    assert(blocks@[k] == old_blocks[k]);
                }
            }
            lemma_push_cut(s, old_cuts, (cs as int, le as int));
        }
    }
    proof {
        assert(paragraph_cuts(text@, cuts));
    }
    proof {
        assert forall|k: int| 0 <= k < blocks.len() implies exact_slice(text@, #[trigger] blocks@[k]) by {
            assert(paragraph_block(s, cuts[k], k, blocks@[k]));
            lemma_cut_bound(s, cuts, k);
        }
    }
    blocks
}

proof fn lemma_cut_paragraph(s: Seq<char>, cuts: Seq<(int, int)>, k: int)
    requires
        cuts_in_order(s, cuts),
        0 <= k < cuts.len(),
    ensures
        paragraph_at(s, cuts[k].0, cuts[k].1),
{
    reveal(cuts_in_order);
}

/// Every paragraph block is byte-exact: block `k` has index `k`, its offsets are
/// character boundaries with `start < end` within the text, its text is exactly the
/// characters between them, and that text is non-blank and has no surrounding
/// whitespace.
pub proof fn lemma_paragraph_blocks_exact(text: Seq<char>, r: Seq<TextBlock>)
    requires
        exists|cuts: Seq<(int, int)>|
            #[trigger] paragraph_cuts(text, cuts) && r.len() == cuts.len() && forall|k: int|
                0 <= k < r.len() ==> paragraph_block(text, cuts[k], k, #[trigger] r[k]),
    ensures
        forall|k: int|
            0 <= k < r.len() ==> {
                &&& (#[trigger] r[k]).index == k
                &&& 0 <= r[k].start < r[k].end <= byte_len(text)
                &&& is_boundary(text, r[k].start as int)
                &&& is_boundary(text, r[k].end as int)
                &&& exact_slice(text, r[k])
                &&& r[k].text@.len() > 0
                &&& trim(r[k].text@) == r[k].text@
            },
{
    let cuts = choose|cuts: Seq<(int, int)>|
        #[trigger] paragraph_cuts(text, cuts) && r.len() == cuts.len() && forall|k: int|
            0 <= k < r.len() ==> paragraph_block(text, cuts[k], k, #[trigger] r[k]);
    assert forall|k: int| 0 <= k < r.len() implies {
        &&& (#[trigger] r[k]).index == k
        &&& 0 <= r[k].start < r[k].end <= byte_len(text)
        &&& is_boundary(text, r[k].start as int)
        &&& is_boundary(text, r[k].end as int)
        &&& exact_slice(text, r[k])
        &&& r[k].text@.len() > 0
        &&& trim(r[k].text@) == r[k].text@
    } by {
        assert(paragraph_block(text, cuts[k], k, r[k]));
        lemma_cut_paragraph(text, cuts, k);
        let (cs, ce) = cuts[k];
        lemma_offset_mono(text, cs, ce);
        lemma_offset_bounded(text, ce);
        lemma_offset_zero(text);
        lemma_offset_mono(text, 0, cs);
        assert(byte_offset(text, cs) == r[k].start);
        assert(byte_offset(text, ce) == r[k].end);
        lemma_trim_start(text, cs, cs, ce);
        lemma_trim_end(text, cs, ce, ce);
    }
}

} // verus!
