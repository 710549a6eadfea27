//! Side-by-side comparison of the paragraph-level and sentence-level results.
//! Probabilities are held in millionths.
use vstd::prelude::*;
use crate::evidence::SCALE;
use crate::text::{fits_i32, previewed, safe_preview, min_int, byte_len, push_char};

verus! {

/// A scored segment of one mode: its id, its byte range and its probability.
#[derive(Debug, Clone, Copy, PartialEq, Eq, Structural)]
pub struct ModeSegment {
    pub chunk_id: i32,
    pub start: i32,
    pub end: i32,
    pub probability: i64,
}

/// A place where the two modes disagree by more than the threshold.
#[derive(Debug, Clone)]
pub struct DivergentRegion {
    pub paragraph_segment_id: i32,
    pub sentence_segment_id: i32,
    pub probability_diff: i64,
    pub paragraph_prob: i64,
    pub sentence_prob: i64,
    pub text_preview: String,
}

/// The outcome of a comparison: how many segment pairs were compared, how many of them
/// fall on the same side of one half, and where the modes diverge.
#[derive(Debug, Clone)]
pub struct ComparisonCounts {
    pub compared: usize,
    pub consistent: usize,
    pub divergent_regions: Vec<DivergentRegion>,
}

pub open spec fn overlap(p: ModeSegment, s: ModeSegment) -> int {
    min_int(p.end as int, s.end as int) - (if p.start >= s.start { p.start as int } else { s.start as int })
}

pub open spec fn max1(x: int) -> int {
    if x >= 1 { x } else { 1 }
}

/// The two segments overlap on more than half of each.
pub open spec fn compared(p: ModeSegment, s: ModeSegment) -> bool {
    let ov = overlap(p, s);
    ov > 0 && 2 * ov > max1(p.end - p.start) && 2 * ov > max1(s.end - s.start)
}

/// Both probabilities lie on the same side of one half.
pub open spec fn agree(p: ModeSegment, s: ModeSegment) -> bool {
    (p.probability > SCALE / 2) == (s.probability > SCALE / 2)
}

pub open spec fn abs_diff(a: int, b: int) -> int {
    if a >= b { a - b } else { b - a }
}

/// Number of segments of `ss[0..j]` compared with `p`, and of those that agree with it.
pub open spec fn row_counts(p: ModeSegment, ss: Seq<ModeSegment>, j: int) -> (nat, nat)
    decreases j,
{
    if j <= 0 {
        (0, 0)
    } else {
        let prev = row_counts(p, ss, j - 1);
        let c = compared(p, ss[j - 1]);
        (prev.0 + if c { 1nat } else { 0nat }, prev.1 + if c && agree(p, ss[j - 1]) { 1nat } else { 0nat })
    }
}

/// The counts of `row_counts` over the paragraph segments `ps[0..i]`.
pub open spec fn table_counts(ps: Seq<ModeSegment>, ss: Seq<ModeSegment>, i: int) -> (nat, nat)
    decreases i,
{
    if i <= 0 {
        (0, 0)
    } else {
        let prev = table_counts(ps, ss, i - 1);
        let row = row_counts(ps[i - 1], ss, ss.len() as int);
        (prev.0 + row.0, prev.1 + row.1)
    }
}

/// The preview of a divergent region: up to 100 bytes from the start of the overlap,
/// followed by `...` when the overlap is longer.
pub open spec fn region_preview(text: Seq<char>, p: ModeSegment, s: ModeSegment) -> Seq<char> {
    let os = if p.start >= s.start { p.start as int } else { s.start as int };
    let oe = min_int(p.end as int, s.end as int);
    let pe = min_int(os + 100, oe);
    let base = if os < 0 || pe <= os {
        Seq::<char>::empty()
    } else {
        previewed(text, min_int(os, byte_len(text) as int), min_int(pe, byte_len(text) as int), 100)
    };
    if pe < oe { base + "..."@ } else { base }
}

/// What a region records, its preview as characters.
pub open spec fn region_view(r: DivergentRegion) -> (i32, i32, i64, i64, i64, Seq<char>) {
    (r.paragraph_segment_id, r.sentence_segment_id, r.probability_diff, r.paragraph_prob, r.sentence_prob, r.text_preview@)
}

pub open spec fn region_of(text: Seq<char>, p: ModeSegment, s: ModeSegment) -> (i32, i32, i64, i64, i64, Seq<char>) {
    (p.chunk_id, s.chunk_id, abs_diff(p.probability as int, s.probability as int) as i64, p.probability, s.probability, region_preview(text, p, s))
}

/// The divergent regions of `p` against `ss[0..j]`, in order.
pub open spec fn row_regions(text: Seq<char>, p: ModeSegment, ss: Seq<ModeSegment>, j: int, thr: int) -> Seq<(i32, i32, i64, i64, i64, Seq<char>)>
    decreases j,
{
    if j <= 0 {
        Seq::empty()
    } else {
        let prev = row_regions(text, p, ss, j - 1, thr);
        if compared(p, ss[j - 1]) && abs_diff(p.probability as int, ss[j - 1].probability as int) > thr {
            prev.push(region_of(text, p, ss[j - 1]))
        } else {
            prev
        }
    }
}

/// The divergent regions of the paragraph segments `ps[0..i]`, in order.
pub open spec fn table_regions(text: Seq<char>, ps: Seq<ModeSegment>, ss: Seq<ModeSegment>, i: int, thr: int) -> Seq<(i32, i32, i64, i64, i64, Seq<char>)>
    decreases i,
{
    if i <= 0 {
        Seq::empty()
    } else {
        table_regions(text, ps, ss, i - 1, thr) + row_regions(text, ps[i - 1], ss, ss.len() as int, thr)
    }
}

pub open spec fn probabilities_valid(ss: Seq<ModeSegment>) -> bool {
    forall|i: int| 0 <= i < ss.len() ==> 0 <= #[trigger] ss[i].probability <= SCALE
}

proof fn lemma_row_le(p: ModeSegment, ss: Seq<ModeSegment>, j: int)
    ensures
        row_counts(p, ss, j).1 <= row_counts(p, ss, j).0,
        row_counts(p, ss, j).0 <= if j > 0 { j } else { 0 },
    decreases j,
{
    if j > 0 {
        lemma_row_le(p, ss, j - 1);
    }
}

proof fn lemma_table_le(ps: Seq<ModeSegment>, ss: Seq<ModeSegment>, i: int)
    ensures
        table_counts(ps, ss, i).1 <= table_counts(ps, ss, i).0,
        table_counts(ps, ss, i).0 <= (if i > 0 { i } else { 0 }) * ss.len(),
    decreases i,
{
    if i > 0 {
        lemma_table_le(ps, ss, i - 1);
        lemma_row_le(ps[i - 1], ss, ss.len() as int);
        assert((i - 1) * ss.len() + ss.len() == i * ss.len()) by (nonlinear_arith);
    }
}

/// The share of agreeing pairs among the compared ones lies between 0 and 1: never
/// more pairs agree than were compared.
pub proof fn lemma_consistency_bounded(ps: Seq<ModeSegment>, ss: Seq<ModeSegment>)
    ensures
        table_counts(ps, ss, ps.len() as int).1 <= table_counts(ps, ss, ps.len() as int).0,
{
    lemma_table_le(ps, ss, ps.len() as int);
}

fn region_text(text: &str, p: &ModeSegment, s: &ModeSegment) -> (r: String)
    requires
        fits_i32(text@),
    ensures
        r@ == region_preview(text@, *p, *s),
{
    let os: i32 = if p.start >= s.start { p.start } else { s.start };
    let oe: i32 = if p.end <= s.end { p.end } else { s.end };
    let pe: i32 = if (os as i64) + 100 < (oe as i64) { os + 100 } else { oe };
    let mut out = safe_preview(text, os, pe, 100);
    if pe < oe {
        proof {
            reveal_strlit("...");
        }
        push_char(&mut out, '.');
        push_char(&mut out, '.');
        push_char(&mut out, '.');
        assert(out@ =~= region_preview(text@, *p, *s));
    }
    out
}

/// Compares every paragraph segment with every sentence segment that overlaps more
/// than half of both: counts the pairs and those on the same side of one half, and
/// records a region (with a preview of the overlap) wherever the probabilities differ by
/// more than `diff_threshold`.
pub fn compare_dual_mode_results(
    para_segments: &[ModeSegment],
    sent_segments: &[ModeSegment],
    text: &str,
    diff_threshold: i64,
) -> (r: ComparisonCounts)
    requires
        fits_i32(text@),
        para_segments@.len() * sent_segments@.len() <= usize::MAX,
        probabilities_valid(para_segments@),
        probabilities_valid(sent_segments@),
    ensures
        r.compared == table_counts(para_segments@, sent_segments@, para_segments@.len() as int).0,
        r.consistent == table_counts(para_segments@, sent_segments@, para_segments@.len() as int).1,
        r.consistent <= r.compared,
        r.divergent_regions@.len() == table_regions(text@, para_segments@, sent_segments@, para_segments@.len() as int, diff_threshold as int).len(),
        forall|k: int| 0 <= k < r.divergent_regions@.len() ==> region_view(#[trigger] r.divergent_regions@[k]) == table_regions(
            text@,
            para_segments@,
            sent_segments@,
            para_segments@.len() as int,
            diff_threshold as int,
        )[k],
{
    let ps = para_segments;
    let ss = sent_segments;
    let mut compared_n: usize = 0;
    let mut consistent_n: usize = 0;
    let mut regions: Vec<DivergentRegion> = Vec::new();
    let mut i: usize = 0;
    while i < ps.len()
        invariant
            fits_i32(text@),
            ps.len() * ss.len() <= usize::MAX,
            probabilities_valid(ps@),
            probabilities_valid(ss@),
            i <= ps.len(),
            compared_n == table_counts(ps@, ss@, i as int).0,
            consistent_n == table_counts(ps@, ss@, i as int).1,
            regions@.len() == table_regions(text@, ps@, ss@, i as int, diff_threshold as int).len(),
            forall|k: int| 0 <= k < regions@.len() ==> region_view(#[trigger] regions@[k]) == table_regions(text@, ps@, ss@, i as int, diff_threshold as int)[k],
        decreases ps.len() - i,
    {
        let p = ps[i];
        proof {
            lemma_table_le(ps@, ss@, i as int);
            assert(0 <= ps@[i as int].probability <= SCALE);
        }
        let ghost base = regions@;
        let ghost base_spec = table_regions(text@, ps@, ss@, i as int, diff_threshold as int);
        let mut j: usize = 0;
        while j < ss.len()
            invariant
                fits_i32(text@),
                ps.len() * ss.len() <= usize::MAX,
                probabilities_valid(ss@),
                0 <= p.probability <= SCALE,
                p == ps@[i as int],
                i < ps.len(),
                j <= ss.len(),
                compared_n == table_counts(ps@, ss@, i as int).0 + row_counts(p, ss@, j as int).0,
                consistent_n == table_counts(ps@, ss@, i as int).1 + row_counts(p, ss@, j as int).1,
                table_counts(ps@, ss@, i as int).0 <= i * ss.len(),
                table_counts(ps@, ss@, i as int).1 <= table_counts(ps@, ss@, i as int).0,
                regions@.len() == base_spec.len() + row_regions(text@, p, ss@, j as int, diff_threshold as int).len(),
                forall|k: int| 0 <= k < regions@.len() ==> region_view(#[trigger] regions@[k]) == (base_spec + row_regions(text@, p, ss@, j as int, diff_threshold as int))[k],
            decreases ss.len() - j,
        {
            let s = ss[j];
            proof {
                lemma_row_le(p, ss@, j as int);
                assert(0 <= ss@[j as int].probability <= SCALE);
                assert(i * ss.len() + j < (i + 1) * ss.len()) by (nonlinear_arith)
                    requires j < ss.len();
                assert((i + 1) * ss.len() <= ps.len() * ss.len()) by (nonlinear_arith)
                    requires i + 1 <= ps.len();
            }
            let os: i64 = if p.start >= s.start { p.start as i64 } else { s.start as i64 };
            let oe: i64 = if p.end <= s.end { p.end as i64 } else { s.end as i64 };
            let ov = oe - os;
            let pl: i64 = if (p.end as i64) - (p.start as i64) >= 1 { (p.end as i64) - (p.start as i64) } else { 1 };
            let sl: i64 = if (s.end as i64) - (s.start as i64) >= 1 { (s.end as i64) - (s.start as i64) } else { 1 };
            let ghost old_regions = regions@;
            if ov > 0 && 2 * ov > pl && 2 * ov > sl {
                assert(compared(p, s));
                assert(compared_n < ps.len() * ss.len());
                compared_n = compared_n + 1;
                if (p.probability > SCALE / 2) == (s.probability > SCALE / 2) {
                    consistent_n = consistent_n + 1;
                }
                let diff = if p.probability >= s.probability { p.probability - s.probability } else { s.probability - p.probability };
                if diff > diff_threshold {
                    let preview = region_text(text, &p, &s);
                    regions.push(DivergentRegion {
                        paragraph_segment_id: p.chunk_id,
                        sentence_segment_id: s.chunk_id,
                        probability_diff: diff,
                        paragraph_prob: p.probability,
                        sentence_prob: s.probability,
                        text_preview: preview,
                    });
                    proof {
                        let rr = row_regions(text@, p, ss@, j as int, diff_threshold as int);
                        assert(row_regions(text@, p, ss@, j + 1, diff_threshold as int) == rr.push(region_of(text@, p, s)));
                        assert forall|k: int| 0 <= k < regions@.len() implies region_view(#[trigger] regions@[k]) == (base_spec + row_regions(text@, p, ss@, j + 1, diff_threshold as int))[k] by {
                            if k < old_regions.len() {
                                assert(regions@[k] == old_regions[k]);
                            }
                        }
                    }
                }
            } else {
                assert(!compared(p, s));
            }
            j += 1;
        }
        proof {
            assert(table_regions(text@, ps@, ss@, i + 1, diff_threshold as int) == base_spec + row_regions(text@, p, ss@, ss.len() as int, diff_threshold as int));
        }
        i += 1;
    }
    proof {
        lemma_consistency_bounded(ps@, ss@);
    }
    ComparisonCounts { compared: compared_n, consistent: consistent_n, divergent_regions: regions }
}

} // verus!
