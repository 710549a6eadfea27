//! Sensitivity levels: the decision thresholds and gates applied to a probability,
//! an uncertainty and the evidence behind them. Probabilities, uncertainties and
//! strengths are held in millionths (`SCALE` is 1).
use vstd::prelude::*;
use crate::evidence::{EvidenceItem, EvidenceSummary, scores_bounded, summarize_evidence, summary_of};
use crate::sentences::{trim, trimmed};
use crate::text::{lower_of, lowercase, same_text};

verus! {

#[derive(Debug, Clone, Copy, PartialEq, Eq, Structural)]
pub enum DetectionSensitivity {
    Low,
    Medium,
    High,
}

/// The level named by an already lowercased, trimmed word: `low`, `high`, else medium.
pub open spec fn sensitivity_of(word: Seq<char>) -> DetectionSensitivity {
    if word == "low"@ {
        DetectionSensitivity::Low
    } else if word == "high"@ {
        DetectionSensitivity::High
    } else {
        DetectionSensitivity::Medium
    }
}

/// The level a user wrote as `val`: case-insensitive, surrounding whitespace ignored.
pub open spec fn sensitivity_named(val: Seq<char>) -> DetectionSensitivity {
    sensitivity_of(lower_of(trim(val)))
}

impl DetectionSensitivity {
    /// The level named by `word`, which is already lowercased and trimmed.
    pub fn from_lowered(word: &str) -> (r: Self)
        ensures
            r == sensitivity_of(word@),
    {
        if same_text(word, "low") {
            DetectionSensitivity::Low
        } else if same_text(word, "high") {
            DetectionSensitivity::High
        } else {
            DetectionSensitivity::Medium
        }
    }

    /// Reads `low` or `high` (any case, surrounding whitespace ignored); anything else
    /// is medium.
    pub fn from_str(val: &str) -> (r: Self)
        ensures
            r == sensitivity_named(val@),
    {
        let t = trimmed(val);
        let l = lowercase(t.as_str());
        Self::from_lowered(l.as_str())
    }
}

/// The probability bands: below `review` passes, below `flag` asks for review.
#[derive(Debug, Clone, Copy, PartialEq, Eq, Structural)]
pub struct DecisionThresholds {
    pub review: i64,
    pub flag: i64,
}

impl Default for DecisionThresholds {
    /// The medium level's bands.
    fn default() -> (r: Self)
        ensures
            r == profile_of(DetectionSensitivity::Medium).thresholds,
    {
        DecisionThresholds { review: 650000, flag: 850000 }
    }
}

/// The fixed bands of the probability scale (millionths), independent of sensitivity.
#[derive(Debug, Clone, Copy, PartialEq, Eq, Structural)]
pub struct AggregationThresholds {
    pub low: i64,
    pub medium: i64,
    pub high: i64,
    pub very_high: i64,
}

impl Default for AggregationThresholds {
    /// 0.65, 0.75, 0.85 and 0.90.
    fn default() -> (r: Self)
        ensures
            r.low == 650000 && r.medium == 750000 && r.high == 850000 && r.very_high == 900000,
    {
        AggregationThresholds { low: 650000, medium: 750000, high: 850000, very_high: 900000 }
    }
}

/// Everything a sensitivity level fixes.
#[derive(Debug, Clone, Copy, PartialEq, Eq, Structural)]
pub struct DecisionProfile {
    pub thresholds: DecisionThresholds,
    pub review_uncertainty: i64,
    pub flag_uncertainty: i64,
    pub content_min: i64,
    pub human_max: i64,
}

pub open spec fn profile_of(s: DetectionSensitivity) -> DecisionProfile {
    match s {
        DetectionSensitivity::Low => DecisionProfile {
            thresholds: DecisionThresholds { review: 720000, flag: 880000 },
            review_uncertainty: 600000,
            flag_uncertainty: 300000,
            content_min: 550000,
            human_max: 350000,
        },
        DetectionSensitivity::High => DecisionProfile {
            thresholds: DecisionThresholds { review: 550000, flag: 750000 },
            review_uncertainty: 620000,
            flag_uncertainty: 450000,
            content_min: 0,
            human_max: 550000,
        },
        DetectionSensitivity::Medium => DecisionProfile {
            thresholds: DecisionThresholds { review: 650000, flag: 850000 },
            review_uncertainty: 600000,
            flag_uncertainty: 350000,
            content_min: 450000,
            human_max: 450000,
        },
    }
}

pub fn decision_profile(sensitivity: DetectionSensitivity) -> (r: DecisionProfile)
    ensures
        r == profile_of(sensitivity),
{
    match sensitivity {
        DetectionSensitivity::Low => DecisionProfile {
            thresholds: DecisionThresholds { review: 720000, flag: 880000 },
            review_uncertainty: 600000,
            flag_uncertainty: 300000,
            content_min: 550000,
            human_max: 350000,
        },
        DetectionSensitivity::High => DecisionProfile {
            thresholds: DecisionThresholds { review: 550000, flag: 750000 },
            review_uncertainty: 620000,
            flag_uncertainty: 450000,
            content_min: 0,
            human_max: 550000,
        },
        DetectionSensitivity::Medium => DecisionProfile {
            thresholds: DecisionThresholds { review: 650000, flag: 850000 },
            review_uncertainty: 600000,
            flag_uncertainty: 350000,
            content_min: 450000,
            human_max: 450000,
        },
    }
}

/// The probability bands of the level that `sensitivity` names.
pub fn decision_thresholds(sensitivity: &str) -> (r: DecisionThresholds)
    ensures
        r == profile_of(sensitivity_named(sensitivity@)).thresholds,
{
    decision_profile(DetectionSensitivity::from_str(sensitivity)).thresholds
}

#[derive(Debug, Clone, Copy, PartialEq, Eq, Structural)]
pub enum Decision {
    Pass,
    Review,
    Flag,
}

impl Decision {
    pub fn as_str(&self) -> (r: &'static str)
        ensures
            r@ == (match *self {
                Decision::Pass => "pass"@,
                Decision::Review => "review"@,
                Decision::Flag => "flag"@,
            }),
    {
        match self {
            Decision::Pass => "pass",
            Decision::Review => "review",
            Decision::Flag => "flag",
        }
    }
}

/// pass < review < flag.
pub open spec fn rank(d: Decision) -> int {
    match d {
        Decision::Pass => 0,
        Decision::Review => 1,
        Decision::Flag => 2,
    }
}

/// The band that `prob` falls in, each threshold lowered by `margin`.
pub open spec fn base_band(prob: int, t: DecisionThresholds, margin: int) -> Decision {
    if prob < t.review - margin {
        Decision::Pass
    } else if prob < t.flag - margin {
        Decision::Review
    } else {
        Decision::Flag
    }
}

/// The decision for one segment: the band of its probability, then a pass with high
/// uncertainty goes to review, and a flag goes to review when the uncertainty is too
/// high, the content evidence too weak, or the human evidence too strong.
pub open spec fn segment_decision(prob: int, unc: int, ev: EvidenceSummary, s: DetectionSensitivity, margin: int) -> Decision {
    let p = profile_of(s);
    let base = base_band(prob, p.thresholds, margin);
    if base == Decision::Pass {
        if unc >= p.review_uncertainty { Decision::Review } else { Decision::Pass }
    } else if base == Decision::Flag {
        if unc > p.flag_uncertainty {
            Decision::Review
        } else if p.content_min > 0 && ev.content_strength < p.content_min {
            Decision::Review
        } else if ev.human_strength >= p.human_max {
            Decision::Review
        } else {
            Decision::Flag
        }
    } else {
        Decision::Review
    }
}

pub fn base_decision(prob: i64, thresholds: &DecisionThresholds, margin: i64) -> (r: Decision)
    ensures
        r == base_band(prob as int, *thresholds, margin as int),
{
    if (prob as i128) < (thresholds.review as i128) - (margin as i128) {
        Decision::Pass
    } else if (prob as i128) < (thresholds.flag as i128) - (margin as i128) {
        Decision::Review
    } else {
        Decision::Flag
    }
}

/// The decision for a segment with the given summary of its evidence.
pub fn decide_with_summary(
    prob: i64,
    uncertainty: i64,
    summary: &EvidenceSummary,
    sensitivity: DetectionSensitivity,
    margin: i64,
) -> (r: Decision)
    ensures
        r == segment_decision(prob as int, uncertainty as int, *summary, sensitivity, margin as int),
{
    let profile = decision_profile(sensitivity);
    let mut decision = base_decision(prob, &profile.thresholds, margin);
    if decision == Decision::Pass && uncertainty >= profile.review_uncertainty {
        decision = Decision::Review;
    }
    if decision == Decision::Flag {
        if uncertainty > profile.flag_uncertainty {
            decision = Decision::Review;
        } else if profile.content_min > 0 && summary.content_strength < profile.content_min {
            decision = Decision::Review;
        } else if summary.human_strength >= profile.human_max {
            decision = Decision::Review;
        }
    }
    decision
}

/// The decision for a segment of probability `prob` and uncertainty `uncertainty`
/// (millionths) under the sensitivity level that `sensitivity` names.
pub fn decide_segment(
    prob: i64,
    uncertainty: i64,
    evidence: &[EvidenceItem],
    sensitivity: &str,
    margin: i64,
) -> (r: Decision)
    requires
        scores_bounded(evidence@),
    ensures
        r == segment_decision(
            prob as int,
            uncertainty as int,
            summary_of(evidence@),
            sensitivity_named(sensitivity@),
            margin as int,
        ),
{
    let level = DetectionSensitivity::from_str(sensitivity);
    let summary = summarize_evidence(evidence);
    decide_with_summary(prob, uncertainty, &summary, level, margin)
}

/// Raising the sensitivity never lowers a decision for the same probability,
/// uncertainty and evidence: low never decides above medium; medium never decides above
/// high, except that a probability in high's pass band with an uncertainty in
/// `[0.60, 0.62)` is sent to review by medium (whose review uncertainty is 0.60) and
/// passed by high (whose review uncertainty is 0.62).
pub proof fn lemma_sensitivity_monotone(prob: int, unc: int, ev: EvidenceSummary, margin: int)
    ensures
        rank(segment_decision(prob, unc, ev, DetectionSensitivity::Low, margin)) <= rank(
            segment_decision(prob, unc, ev, DetectionSensitivity::Medium, margin),
        ),
        !(prob < 550000 - margin && 600000 <= unc < 620000) ==> rank(
            segment_decision(prob, unc, ev, DetectionSensitivity::Medium, margin),
        ) <= rank(segment_decision(prob, unc, ev, DetectionSensitivity::High, margin)),
{
}

/// What the overall decision needs of one segment.
#[derive(Debug, Clone)]
pub struct SegmentGate {
    pub raw_probability: i64,
    pub uncertainty: i64,
    pub evidence: Vec<EvidenceItem>,
}

/// A segment that would be flagged on its own: its probability reaches the flag band,
/// its uncertainty is low enough, its content evidence strong enough (when the level
/// asks for it) and its human evidence weak enough.
pub open spec fn passes_flag_gate(g: SegmentGate, p: DecisionProfile, margin: int) -> bool {
    let ev = summary_of(g.evidence@);
    &&& g.raw_probability >= p.thresholds.flag - margin
    &&& g.uncertainty <= p.flag_uncertainty
    &&& !(p.content_min > 0 && ev.content_strength < p.content_min)
    &&& ev.human_strength < p.human_max
}

/// The document-level decision: the band of the overall probability; a pass with high
/// uncertainty goes to review; a flag goes to review when the overall uncertainty is too
/// high or no segment passes the flag gate on its own.
pub open spec fn overall_decision(prob: int, unc: int, segs: Seq<SegmentGate>, s: DetectionSensitivity, margin: int) -> Decision {
    let p = profile_of(s);
    let base = base_band(prob, p.thresholds, margin);
    if base == Decision::Pass {
        if unc >= p.review_uncertainty { Decision::Review } else { Decision::Pass }
    } else if base == Decision::Flag {
        if unc > p.flag_uncertainty {
            Decision::Review
        } else if exists|i: int| 0 <= i < segs.len() && #[trigger] passes_flag_gate(segs[i], p, margin) {
            Decision::Flag
        } else {
            Decision::Review
        }
    } else {
        Decision::Review
    }
}

pub open spec fn gates_bounded(segs: Seq<SegmentGate>) -> bool {
    forall|i: int| 0 <= i < segs.len() ==> scores_bounded(#[trigger] segs[i].evidence@)
}

pub fn decide_overall(
    prob: i64,
    overall_uncertainty: i64,
    segments: &[SegmentGate],
    sensitivity: &str,
    margin: i64,
) -> (r: Decision)
    requires
        gates_bounded(segments@),
    ensures
        r == overall_decision(
            prob as int,
            overall_uncertainty as int,
            segments@,
            sensitivity_named(sensitivity@),
            margin as int,
        ),
{
    let profile = decision_profile(DetectionSensitivity::from_str(sensitivity));
    let mut decision = base_decision(prob, &profile.thresholds, margin);
    if decision == Decision::Pass && overall_uncertainty >= profile.review_uncertainty {
        decision = Decision::Review;
    }
    if decision == Decision::Flag {
        if overall_uncertainty > profile.flag_uncertainty {
            decision = Decision::Review;
        } else {
            let mut has_gate = false;
            let mut i: usize = 0;
            while i < segments.len() && !has_gate
                invariant
                    i <= segments.len(),
                    gates_bounded(segments@),
                    has_gate ==> i > 0 && passes_flag_gate(segments@[i - 1], profile, margin as int),
                    !has_gate ==> forall|j: int| 0 <= j < i ==> !#[trigger] passes_flag_gate(segments@[j], profile, margin as int),
                decreases segments.len() - i,
            {
                let seg = &segments[i];
                assert(scores_bounded(segments@[i as int].evidence@));
                let summary = summarize_evidence(seg.evidence.as_slice());
                if (seg.raw_probability as i128) >= (profile.thresholds.flag as i128) - (margin as i128)
                    && seg.uncertainty <= profile.flag_uncertainty
                    && !(profile.content_min > 0 && summary.content_strength < profile.content_min)
                    && summary.human_strength < profile.human_max {
                    assert(passes_flag_gate(segments@[i as int], profile, margin as int));
                    has_gate = true;
                }
                i += 1;
            }
            if !has_gate {
                decision = Decision::Review;
            }
        }
    }
    decision
}

/// A segment that passes the flag gate of a level also passes it at every higher level.
proof fn lemma_gate_monotone(g: SegmentGate, margin: int)
    ensures
        passes_flag_gate(g, profile_of(DetectionSensitivity::Low), margin) ==> passes_flag_gate(
            g,
            profile_of(DetectionSensitivity::Medium),
            margin,
        ),
        passes_flag_gate(g, profile_of(DetectionSensitivity::Medium), margin) ==> passes_flag_gate(
            g,
            profile_of(DetectionSensitivity::High),
            margin,
        ),
{
}

/// Raising the sensitivity never lowers the document-level decision for the same
/// probability, uncertainty and segments: low never decides above medium; medium never
/// decides above high, except that a probability in high's pass band with an
/// uncertainty in `[0.60, 0.62)` is sent to review by medium and passed by high.
pub proof fn lemma_overall_sensitivity_monotone(prob: int, unc: int, segs: Seq<SegmentGate>, margin: int)
    ensures
        rank(overall_decision(prob, unc, segs, DetectionSensitivity::Low, margin)) <= rank(
            overall_decision(prob, unc, segs, DetectionSensitivity::Medium, margin),
        ),
        !(prob < 550000 - margin && 600000 <= unc < 620000) ==> rank(
            overall_decision(prob, unc, segs, DetectionSensitivity::Medium, margin),
        ) <= rank(overall_decision(prob, unc, segs, DetectionSensitivity::High, margin)),
{
    let lo = profile_of(DetectionSensitivity::Low);
    let me = profile_of(DetectionSensitivity::Medium);
    let hi = profile_of(DetectionSensitivity::High);
    if exists|i: int| 0 <= i < segs.len() && #[trigger] passes_flag_gate(segs[i], lo, margin) {
        let i = choose|i: int| 0 <= i < segs.len() && #[trigger] passes_flag_gate(segs[i], lo, margin);
        lemma_gate_monotone(segs[i], margin);
    }
    if exists|i: int| 0 <= i < segs.len() && #[trigger] passes_flag_gate(segs[i], me, margin) {
        let i = choose|i: int| 0 <= i < segs.len() && #[trigger] passes_flag_gate(segs[i], me, margin);
        lemma_gate_monotone(segs[i], margin);
    }
}

} // verus!
