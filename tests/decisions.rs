use cheek_ai::catalog::{CatalogCategory, DocumentProfile, SubjectCatalog};
use cheek_ai::evidence::{evidence_logit, evidence_weight, normalize_llm_evidence, parse_evidence_id, profile_strength, summarize_evidence, EvidenceId, EvidenceItem, RawEvidence};
use cheek_ai::sensitivity::{decide_overall, AggregationThresholds, DecisionThresholds, decide_segment, decision_thresholds, Decision, DetectionSensitivity, SegmentGate};

#[test]
fn test_thresholds_order() {
    let low = decision_thresholds("low");
    let mid = decision_thresholds("medium");
    let high = decision_thresholds("high");
    assert!(low.review > mid.review);
    assert!(mid.review > high.review);
}

#[test]
fn test_segment_flag_gate_requires_content() {
    let evidence = vec![EvidenceItem { id: EvidenceId::TemplateLike, score: 800_000, evidence: "模板".to_string() }];
    let decision = decide_segment(900_000, 200_000, &evidence, "medium", 30_000);
    assert_eq!(decision.as_str(), "review");
}

#[test]
fn sensitivity_names() {
    assert_eq!(DetectionSensitivity::from_str("  HIGH "), DetectionSensitivity::High);
    assert_eq!(DetectionSensitivity::from_str("Low"), DetectionSensitivity::Low);
    assert_eq!(DetectionSensitivity::from_str("whatever"), DetectionSensitivity::Medium);
    assert_eq!(decision_thresholds("HIGH").review, 550_000);
}

#[test]
fn segment_decisions_by_band() {
    let strong = vec![EvidenceItem { id: EvidenceId::LowSpecificity, score: 700_000, evidence: "vague".to_string() }];
    assert_eq!(decide_segment(500_000, 100_000, &strong, "medium", 30_000), Decision::Pass);
    assert_eq!(decide_segment(700_000, 100_000, &strong, "medium", 30_000), Decision::Review);
    assert_eq!(decide_segment(900_000, 100_000, &strong, "medium", 30_000), Decision::Flag);
    assert_eq!(decide_segment(900_000, 400_000, &strong, "medium", 30_000), Decision::Review);
    assert_eq!(decide_segment(500_000, 600_000, &strong, "medium", 30_000), Decision::Review);
    let human = vec![
        EvidenceItem { id: EvidenceId::LowSpecificity, score: 700_000, evidence: "vague".to_string() },
        EvidenceItem { id: EvidenceId::HumanDetail, score: -500_000, evidence: "anecdote".to_string() },
    ];
    assert_eq!(decide_segment(900_000, 100_000, &human, "medium", 30_000), Decision::Review);
}

#[test]
fn raising_sensitivity_never_lowers_decision() {
    let ev = vec![EvidenceItem { id: EvidenceId::LogicalLeaps, score: 500_000, evidence: "jump".to_string() }];
    for p in [100_000i64, 540_000, 640_000, 700_000, 830_000, 900_000] {
        for u in [100_000i64, 320_000, 400_000, 590_000, 630_000] {
            let r = |s: &str| match decide_segment(p, u, &ev, s, 30_000) {
                Decision::Pass => 0,
                Decision::Review => 1,
                Decision::Flag => 2,
            };
            assert!(r("low") <= r("medium"));
            assert!(r("medium") <= r("high"));
        }
    }
    assert_eq!(decide_segment(500_000, 610_000, &ev, "medium", 30_000), Decision::Review);
    assert_eq!(decide_segment(500_000, 610_000, &ev, "high", 30_000), Decision::Pass);
}

#[test]
fn evidence_ids_closed_set() {
    assert_eq!(parse_evidence_id(" Template_Like "), Some(EvidenceId::TemplateLike));
    assert_eq!(parse_evidence_id("HUMAN_DETAIL"), Some(EvidenceId::HumanDetail));
    assert_eq!(parse_evidence_id("made_up"), None);
    assert_eq!(EvidenceId::StylisticVariance.as_str(), "stylistic_variance");
}

#[test]
fn unknown_evidence_is_dropped() {
    let raw = vec![
        RawEvidence { id: "Template_Like".to_string(), score: 2_000_000, evidence: " rigid ".to_string() },
        RawEvidence { id: "gibberish".to_string(), score: 900_000, evidence: "x".to_string() },
        RawEvidence { id: "logical_leaps".to_string(), score: 300_000, evidence: "   ".to_string() },
        RawEvidence { id: "human_detail".to_string(), score: -1_500_000, evidence: "names".to_string() },
    ];
    let kept = normalize_llm_evidence(&raw);
    assert_eq!(kept.len(), 2);
    assert_eq!(kept[0].id, EvidenceId::TemplateLike);
    assert_eq!(kept[0].score, 1_000_000);
    assert_eq!(kept[0].evidence, "rigid");
    assert_eq!(kept[1].id, EvidenceId::HumanDetail);
    assert_eq!(kept[1].score, -1_000_000);
    let s = summarize_evidence(&kept);
    assert_eq!(s.structural_strength, 1_000_000);
    assert_eq!(s.human_strength, 1_000_000);
    assert_eq!(s.content_strength, 0);
}

#[test]
fn overall_decision_needs_a_flaggable_segment() {
    let weak = SegmentGate { raw_probability: 900_000, uncertainty: 100_000, evidence: vec![] };
    let strong = SegmentGate {
        raw_probability: 900_000,
        uncertainty: 100_000,
        evidence: vec![EvidenceItem { id: EvidenceId::LowSpecificity, score: 600_000, evidence: "generic".to_string() }],
    };
    assert_eq!(decide_overall(900_000, 100_000, &[weak.clone()], "medium", 30_000), Decision::Review);
    assert_eq!(decide_overall(900_000, 100_000, &[weak.clone(), strong], "medium", 30_000), Decision::Flag);
    assert_eq!(decide_overall(900_000, 100_000, &[weak], "high", 30_000), Decision::Flag);
    assert_eq!(decide_overall(100_000, 700_000, &[], "low", 30_000), Decision::Review);
    assert_eq!(decide_overall(0, 0, &[], "medium", 30_000), Decision::Pass);
}

#[test]
fn academic_profiles_discount_structural_evidence() {
    let catalog = SubjectCatalog {
        year: 2022,
        categories: vec![CatalogCategory { category: "工学".to_string(), disciplines: vec!["软件工程".to_string()] }],
    };
    let valid = DocumentProfile {
        category: "工学".to_string(),
        discipline: Some("软件工程".to_string()),
        validity: "valid".to_string(),
        ..DocumentProfile::default()
    };
    let mut partial = valid.clone();
    partial.validity = "partial".to_string();
    assert_eq!(profile_strength(Some(&valid), &catalog), 1_000_000);
    assert_eq!(profile_strength(Some(&partial), &catalog), 600_000);
    assert_eq!(profile_strength(None, &catalog), 0);
    assert_eq!(evidence_weight(EvidenceId::TemplateLike, 0), 1_000_000);
    assert_eq!(evidence_weight(EvidenceId::TemplateLike, 1_000_000), 400_000);
    assert_eq!(evidence_weight(EvidenceId::LowSpecificity, 600_000), 765_000);
    assert_eq!(evidence_weight(EvidenceId::WeakHumanTrace, 600_000), 427_000);
    assert_eq!(evidence_weight(EvidenceId::HumanDetail, 1_000_000), 1_000_000);
}

#[test]
fn evidence_logit_is_weighted_and_clamped() {
    let item = |id: EvidenceId, score: i64| EvidenceItem { id, score, evidence: "x".to_string() };
    assert_eq!(evidence_logit(&[], 0), None);
    assert_eq!(evidence_logit(&[item(EvidenceId::TemplateLike, 500_000), item(EvidenceId::HumanDetail, -250_000)], 0), Some(250_000));
    assert_eq!(evidence_logit(&[item(EvidenceId::StylisticVariance, -3)], 0), Some(-2));
    let many: Vec<EvidenceItem> = (0..5).map(|_| item(EvidenceId::TemplateLike, 1_000_000)).collect();
    assert_eq!(evidence_logit(&many, 0), Some(3_000_000));
}

#[test]
fn default_thresholds() {
    let d = DecisionThresholds::default();
    assert_eq!((d.review, d.flag), (650_000, 850_000));
    let a = AggregationThresholds::default();
    assert_eq!((a.low, a.medium, a.high, a.very_high), (650_000, 750_000, 850_000, 900_000));
}

#[test]
fn test_derive_decision() {
    let segments: Vec<SegmentGate> = Vec::new();
    let decision = decide_overall(700_000, 200_000, &segments, "medium", 30_000);
    assert!(decision == Decision::Review || decision == Decision::Flag);
}

#[test]
fn evidence_is_ordered_strongest_first() {
    let raw = vec![
        RawEvidence { id: "logical_leaps".to_string(), score: 300_000, evidence: "a".to_string() },
        RawEvidence { id: "human_detail".to_string(), score: -900_000, evidence: "b".to_string() },
        RawEvidence { id: "template_like".to_string(), score: 500_000, evidence: "c".to_string() },
        RawEvidence { id: "high_repetition".to_string(), score: -300_000, evidence: "d".to_string() },
    ];
    let kept = normalize_llm_evidence(&raw);
    let order: Vec<&str> = kept.iter().map(|e| e.evidence.as_str()).collect();
    assert_eq!(order, vec!["b", "c", "a", "d"]);
}
