//! The closed set of evidence ids a remote judgment may cite, and what a list of
//! evidence items amounts to for the decision gates.
use vstd::prelude::*;
use crate::sentences::{trim, trimmed};
use crate::text::{lower_of, lowercase, same_text};
use crate::catalog::{academic, is_academic_profile, profile_validity, recorded_validity, DocumentProfile, ProfileValidity, SubjectCatalog};

verus! {

/// One unit of a score: scores and probabilities are held in millionths.
pub const SCALE: i64 = 1000000;

/// A kind of evidence. Positive scores argue for machine-generated text; the last two
/// kinds argue for human writing with negative scores.
#[derive(Debug, Clone, Copy, PartialEq, Eq, Structural)]
pub enum EvidenceId {
    TemplateLike,
    LowSpecificity,
    UniformStructure,
    HighRepetition,
    WeakHumanTrace,
    LogicalLeaps,
    HumanDetail,
    StylisticVariance,
}

/// The id written as text.
pub open spec fn id_text(id: EvidenceId) -> Seq<char> {
    match id {
        EvidenceId::TemplateLike => "template_like"@,
        EvidenceId::LowSpecificity => "low_specificity"@,
        EvidenceId::UniformStructure => "uniform_structure"@,
        EvidenceId::HighRepetition => "high_repetition"@,
        EvidenceId::WeakHumanTrace => "weak_human_trace"@,
        EvidenceId::LogicalLeaps => "logical_leaps"@,
        EvidenceId::HumanDetail => "human_detail"@,
        EvidenceId::StylisticVariance => "stylistic_variance"@,
    }
}

/// The id whose text is `s`, if `s` is one of the closed set.
pub open spec fn id_of_text(s: Seq<char>) -> Option<EvidenceId> {
    if s == "template_like"@ {
        Some(EvidenceId::TemplateLike)
    } else if s == "low_specificity"@ {
        Some(EvidenceId::LowSpecificity)
    } else if s == "uniform_structure"@ {
        Some(EvidenceId::UniformStructure)
    } else if s == "high_repetition"@ {
        Some(EvidenceId::HighRepetition)
    } else if s == "weak_human_trace"@ {
        Some(EvidenceId::WeakHumanTrace)
    } else if s == "logical_leaps"@ {
        Some(EvidenceId::LogicalLeaps)
    } else if s == "human_detail"@ {
        Some(EvidenceId::HumanDetail)
    } else if s == "stylistic_variance"@ {
        Some(EvidenceId::StylisticVariance)
    } else {
        None
    }
}

impl EvidenceId {
    pub fn as_str(&self) -> (r: &'static str)
        ensures
            r@ == id_text(*self),
    {
        match self {
            EvidenceId::TemplateLike => "template_like",
            EvidenceId::LowSpecificity => "low_specificity",
            EvidenceId::UniformStructure => "uniform_structure",
            EvidenceId::HighRepetition => "high_repetition",
            EvidenceId::WeakHumanTrace => "weak_human_trace",
            EvidenceId::LogicalLeaps => "logical_leaps",
            EvidenceId::HumanDetail => "human_detail",
            EvidenceId::StylisticVariance => "stylistic_variance",
        }
    }
}

/// The id written exactly as `s`, if it is one of the closed set.
pub fn evidence_id_of_text(s: &str) -> (r: Option<EvidenceId>)
    ensures
        r == id_of_text(s@),
{
    if same_text(s, "template_like") {
        Some(EvidenceId::TemplateLike)
    } else if same_text(s, "low_specificity") {
        Some(EvidenceId::LowSpecificity)
    } else if same_text(s, "uniform_structure") {
        Some(EvidenceId::UniformStructure)
    } else if same_text(s, "high_repetition") {
        Some(EvidenceId::HighRepetition)
    } else if same_text(s, "weak_human_trace") {
        Some(EvidenceId::WeakHumanTrace)
    } else if same_text(s, "logical_leaps") {
        Some(EvidenceId::LogicalLeaps)
    } else if same_text(s, "human_detail") {
        Some(EvidenceId::HumanDetail)
    } else if same_text(s, "stylistic_variance") {
        Some(EvidenceId::StylisticVariance)
    } else {
        None
    }
}

/// The id that a remote judgment wrote as `raw`, read case-insensitively and without
/// surrounding whitespace; `None` for anything outside the closed set.
pub fn parse_evidence_id(raw: &str) -> (r: Option<EvidenceId>)
    ensures
        r == id_of_text(lower_of(trim(raw@))),
{
    let t = trimmed(raw);
    let l = lowercase(t.as_str());
    evidence_id_of_text(l.as_str())
}

/// An evidence item as a remote judgment returns it, its score in millionths.
#[derive(Debug, Clone)]
pub struct RawEvidence {
    pub id: String,
    pub score: i64,
    pub evidence: String,
}

/// An evidence item kept for fusion: a known id, a score in millionths within
/// `[-SCALE, SCALE]`, and a non-empty trimmed explanation.
#[derive(Debug, Clone)]
pub struct EvidenceItem {
    pub id: EvidenceId,
    pub score: i64,
    pub evidence: String,
}

pub open spec fn clamp_score(x: i64) -> i64 {
    if x < -SCALE {
        -SCALE as i64
    } else if x > SCALE {
        SCALE as i64
    } else {
        x
    }
}

/// The item kept for `raw`, if any: its id must be one of the closed set and its
/// explanation must not be blank.
pub open spec fn kept(raw: RawEvidence, item: EvidenceItem) -> bool {
    &&& id_of_text(lower_of(trim(raw.id@))) == Some(item.id)
    &&& item.score == clamp_score(raw.score)
    &&& item.evidence@ == trim(raw.evidence@)
    &&& item.evidence@.len() > 0
}

/// Whether `raw` survives normalisation.
pub open spec fn survives(raw: RawEvidence) -> bool {
    id_of_text(lower_of(trim(raw.id@))) is Some && trim(raw.evidence@).len() > 0
}

/// Normalises one item: `None` when its id is outside the closed set or its explanation
/// is blank.
pub fn normalize_evidence_item(raw: &RawEvidence) -> (r: Option<EvidenceItem>)
    ensures
        r is Some <==> survives(*raw),
        r is Some ==> kept(*raw, r->0),
{
    let id = parse_evidence_id(raw.id.as_str());
    let ev = trimmed(raw.evidence.as_str());
    match id {
        Some(id) => {
            if ev.as_str().is_empty() {
                return None;
            }
            let score = if raw.score < -SCALE {
                -SCALE
            } else if raw.score > SCALE {
                SCALE
            } else {
                raw.score
            };
            Some(EvidenceItem { id, score, evidence: ev })
        },
        None => None,
    }
}

/// The items of a list that survive normalisation, in their order.
pub fn surviving_evidence(items: &Vec<RawEvidence>) -> (r: Vec<EvidenceItem>)
    ensures
        exists|idx: Seq<int>|
            idx.len() == r.len() && (forall|k: int| 0 <= k < idx.len() ==> 0 <= #[trigger] idx[k] < items.len()
                && kept(items@[idx[k]], r@[k])) && (forall|k: int, m: int| 0 <= k < m < idx.len() ==> #[trigger] idx[k] < #[trigger] idx[m])
                && (forall|i: int| 0 <= i < items.len() && #[trigger] survives(items@[i]) ==> exists|k: int| 0 <= k < idx.len() && idx[k] == i),
{
    let mut out: Vec<EvidenceItem> = Vec::new();
    let ghost mut idx: Seq<int> = Seq::empty();
    let mut i: usize = 0;
    while i < items.len()
        invariant
            i <= items.len(),
            idx.len() == out.len(),
            forall|k: int| 0 <= k < idx.len() ==> 0 <= #[trigger] idx[k] < i && kept(items@[idx[k]], out@[k]),
            forall|k: int, m: int| 0 <= k < m < idx.len() ==> #[trigger] idx[k] < #[trigger] idx[m],
            forall|j: int| 0 <= j < i && #[trigger] survives(items@[j]) ==> exists|k: int| 0 <= k < idx.len() && idx[k] == j,
        decreases items.len() - i,
    {
        let r = normalize_evidence_item(&items[i]);
        match r {
            Some(item) => {
                out.push(item);
                proof {
                    let old_idx = idx;
                    idx = idx.push(i as int);
                    assert forall|j: int| 0 <= j < i + 1 && #[trigger] survives(items@[j]) implies exists|k: int| 0 <= k < idx.len() && idx[k] == j by {
                        if j < i {
                            let k = choose|k: int| 0 <= k < old_idx.len() && old_idx[k] == j;
                            assert(idx[k] == j);
                        } else {
                            assert(idx[idx.len() - 1] == j);
                        }
                    }
                }
            },
            None => {
                proof {
                    assert forall|j: int| 0 <= j < i + 1 && #[trigger] survives(items@[j]) implies exists|k: int| 0 <= k < idx.len() && idx[k] == j by {
                        if j == i {
                            assert(!survives(items@[j]));
                        }
                    }
                }
            },
        }
        i += 1;
    }
    out
}

/// Some position of `perm` holds `t`.
pub open spec fn hits(perm: Seq<int>, t: int) -> bool {
    exists|k: int| 0 <= k < perm.len() && perm[k] == t
}

/// The weight of a score, whatever its sign.
pub open spec fn magnitude(x: i64) -> int {
    if x >= 0 { x as int } else { -(x as int) }
}

/// `r` is `items` reordered by `perm` (`r[k]` is `items[perm[k]]`, every position used
/// once), strongest score first, items of equal strength in their original order.
pub open spec fn stable_by_strength(items: Seq<EvidenceItem>, r: Seq<EvidenceItem>, perm: Seq<int>) -> bool {
    &&& perm.len() == items.len() == r.len()
    &&& forall|k: int| 0 <= k < perm.len() ==> 0 <= #[trigger] perm[k] < items.len() && r[k] == items[perm[k]]
    &&& forall|k: int, m: int| 0 <= k < m < perm.len() ==> #[trigger] perm[k] != #[trigger] perm[m]
    &&& forall|t: int| 0 <= t < items.len() ==> #[trigger] hits(perm, t)
    &&& forall|k: int, m: int|
        0 <= k < m < r.len() ==> magnitude((#[trigger] r[k]).score) >= magnitude((#[trigger] r[m]).score)
    &&& forall|k: int, m: int|
        0 <= k < m < r.len() && magnitude(r[k].score) == magnitude(r[m].score) ==> #[trigger] perm[k] < #[trigger] perm[m]
}

fn magnitude_exec(x: i64) -> (r: u64)
    ensures
        r == magnitude(x),
{
    if x >= 0 {
        x as u64
    } else if x == i64::MIN {
        9223372036854775808u64
    } else {
        (-x) as u64
    }
}

/// Orders evidence items strongest first (by the magnitude of the score), keeping the
/// order of items of equal strength.
pub fn sort_by_strength(items: Vec<EvidenceItem>) -> (r: Vec<EvidenceItem>)
    ensures
        exists|perm: Seq<int>| stable_by_strength(items@, r@, perm),
{
    let mut out: Vec<EvidenceItem> = Vec::new();
    let ghost mut perm: Seq<int> = Seq::empty();
    let ghost all = items@;
    let n = items.len();
    let mut rest = items;
    let mut i: usize = 0;
    while i < n
        invariant
            n == all.len(),
            all == items@,
            rest@ == all.skip(i as int),
            i <= n,
            perm.len() == i && out.len() == i,
            forall|k: int| 0 <= k < i ==> 0 <= #[trigger] perm[k] < i && out@[k] == items@[perm[k]],
            forall|k: int, m: int| 0 <= k < m < i ==> #[trigger] perm[k] != #[trigger] perm[m],
            forall|t: int| 0 <= t < i ==> #[trigger] hits(perm, t),
            forall|k: int, m: int| 0 <= k < m < i ==> magnitude((#[trigger] out@[k]).score) >= magnitude((#[trigger] out@[m]).score),
            forall|k: int, m: int|
                0 <= k < m < i && magnitude(out@[k].score) == magnitude(out@[m].score) ==> #[trigger] perm[k] < #[trigger] perm[m],
        decreases n - i,
    {
        let x = rest.remove(0);
        assert(x == items@[i as int]);
        assert(rest@ =~= all.skip(i + 1));
        let mx = magnitude_exec(x.score);
        let mut j: usize = 0;
        while j < out.len() && magnitude_exec(out[j].score) >= mx
            invariant
                j <= out.len(),
                forall|k: int| 0 <= k < j ==> magnitude(#[trigger] out@[k].score) >= mx,
            decreases out.len() - j,
        {
            j += 1;
        }
        let ghost old_out = out@;
        let ghost old_perm = perm;
        out.insert(j, x);
        proof {
            perm = perm.insert(j as int, i as int);
            assert forall|k: int| 0 <= k < i + 1 implies 0 <= #[trigger] perm[k] < i + 1 && out@[k] == items@[perm[k]] by {
                if k < j {
                    assert(perm[k] == old_perm[k] && out@[k] == old_out[k]);
                } else if k > j {
                    assert(perm[k] == old_perm[k - 1] && out@[k] == old_out[k - 1]);
                }
            }
            assert forall|k: int, m: int| 0 <= k < m < i + 1 implies #[trigger] perm[k] != #[trigger] perm[m] by {
                if m < j {
                    assert(perm[k] == old_perm[k] && perm[m] == old_perm[m]);
                } else if m == j {
                    assert(perm[k] == old_perm[k]);
                } else if k < j {
                    assert(perm[k] == old_perm[k] && perm[m] == old_perm[m - 1]);
                } else if k == j {
                    assert(perm[m] == old_perm[m - 1]);
                } else {
                    assert(perm[k] == old_perm[k - 1] && perm[m] == old_perm[m - 1]);
                }
            }
            assert forall|t: int| 0 <= t < i + 1 implies #[trigger] hits(perm, t) by {
                if t == i {
                    assert(perm[j as int] == t);
                } else {
                    assert(hits(old_perm, t));
                    let k0 = choose|k: int| 0 <= k < old_perm.len() && old_perm[k] == t;
                    if k0 < j {
                        assert(perm[k0] == t);
                    } else {
                        assert(perm[k0 + 1] == t);
                    }
                }
            }
            assert forall|k: int, m: int| 0 <= k < m < i + 1 implies magnitude((#[trigger] out@[k]).score) >= magnitude((#[trigger] out@[m]).score) by {
                if m < j {
                    assert(out@[k] == old_out[k] && out@[m] == old_out[m]);
                } else if m == j {
                    assert(out@[k] == old_out[k]);
                } else if k < j {
                    assert(out@[k] == old_out[k] && out@[m] == old_out[m - 1]);
                } else if k == j {
                    assert(out@[m] == old_out[m - 1]);
                    assert(magnitude(old_out[j as int].score) < mx);
                    if m - 1 > j {
                        assert(magnitude(old_out[j as int].score) >= magnitude(old_out[m - 1].score));
                    }
                } else {
                    assert(out@[k] == old_out[k - 1] && out@[m] == old_out[m - 1]);
                }
            }
            assert forall|k: int, m: int|
                0 <= k < m < i + 1 && magnitude(out@[k].score) == magnitude(out@[m].score) implies #[trigger] perm[k] < #[trigger] perm[m] by {
                if m < j {
                    assert(out@[k] == old_out[k] && out@[m] == old_out[m]);
                    assert(perm[k] == old_perm[k] && perm[m] == old_perm[m]);
                } else if m == j {
                    assert(perm[k] == old_perm[k]);
                } else if k < j {
                    assert(out@[k] == old_out[k] && out@[m] == old_out[m - 1]);
                    assert(perm[k] == old_perm[k] && perm[m] == old_perm[m - 1]);
                } else if k == j {
                    assert(out@[m] == old_out[m - 1]);
                    assert(magnitude(old_out[j as int].score) < mx);
                    if m - 1 > j {
                        assert(magnitude(old_out[j as int].score) >= magnitude(old_out[m - 1].score));
                    }
                } else {
                    assert(out@[k] == old_out[k - 1] && out@[m] == old_out[m - 1]);
                    assert(perm[k] == old_perm[k - 1] && perm[m] == old_perm[m - 1]);
                }
            }
        }
        i += 1;
    }
    assert(stable_by_strength(items@, out@, perm));
    out
}

/// `r` is the normalised form of `items`, `r[k]` coming from `items[idx[k]]`: exactly
/// the surviving items, each once, strongest score first, items of equal strength in
/// their original order.
pub open spec fn normalized_evidence(items: Seq<RawEvidence>, r: Seq<EvidenceItem>, idx: Seq<int>) -> bool {
    &&& idx.len() == r.len()
    &&& forall|k: int| 0 <= k < idx.len() ==> 0 <= #[trigger] idx[k] < items.len() && kept(items[idx[k]], r[k])
    &&& forall|k: int, m: int| 0 <= k < m < idx.len() ==> #[trigger] idx[k] != #[trigger] idx[m]
    &&& forall|i: int| 0 <= i < items.len() && #[trigger] survives(items[i]) ==> hits(idx, i)
    &&& forall|k: int, m: int|
        0 <= k < m < r.len() ==> magnitude((#[trigger] r[k]).score) >= magnitude((#[trigger] r[m]).score)
    &&& forall|k: int, m: int|
        0 <= k < m < r.len() && magnitude(r[k].score) == magnitude(r[m].score) ==> #[trigger] idx[k] < #[trigger] idx[m]
}

/// Normalises the evidence of a remote judgment: items whose id is outside the closed
/// set or whose explanation is blank are dropped, scores are clamped, and the rest is
/// ordered strongest first.
pub fn normalize_llm_evidence(items: &Vec<RawEvidence>) -> (r: Vec<EvidenceItem>)
    ensures
        exists|idx: Seq<int>| normalized_evidence(items@, r@, idx),
{
    let kept_items = surviving_evidence(items);
    let ghost s = kept_items@;
    let ghost idx1 = choose|idx: Seq<int>|
        idx.len() == s.len() && (forall|k: int| 0 <= k < idx.len() ==> 0 <= #[trigger] idx[k] < items.len()
            && kept(items@[idx[k]], s[k])) && (forall|k: int, m: int| 0 <= k < m < idx.len() ==> #[trigger] idx[k] < #[trigger] idx[m])
            && (forall|i: int| 0 <= i < items.len() && #[trigger] survives(items@[i]) ==> exists|k: int| 0 <= k < idx.len() && idx[k] == i);
    let r = sort_by_strength(kept_items);
    proof {
        let perm = choose|perm: Seq<int>| stable_by_strength(s, r@, perm);
        let idx2 = Seq::new(r@.len(), |k: int| idx1[perm[k]]);
        assert forall|k: int| 0 <= k < idx2.len() implies 0 <= #[trigger] idx2[k] < items.len() && kept(items@[idx2[k]], r@[k]) by {
            assert(0 <= perm[k] < s.len());
        }
        assert forall|k: int, m: int| 0 <= k < m < idx2.len() implies #[trigger] idx2[k] != #[trigger] idx2[m] by {
            assert(perm[k] != perm[m]);
            if perm[k] < perm[m] {
                assert(idx1[perm[k]] < idx1[perm[m]]);
            } else {
                assert(idx1[perm[m]] < idx1[perm[k]]);
            }
        }
        assert forall|i: int| 0 <= i < items.len() && #[trigger] survives(items@[i]) implies hits(idx2, i) by {
            let t = choose|t: int| 0 <= t < idx1.len() && idx1[t] == i;
            assert(hits(perm, t));
            let k = choose|k: int| 0 <= k < perm.len() && perm[k] == t;
            assert(idx2[k] == i);
        }
        assert forall|k: int, m: int|
            0 <= k < m < r@.len() && magnitude(r@[k].score) == magnitude(r@[m].score) implies #[trigger] idx2[k] < #[trigger] idx2[m] by {
            assert(perm[k] < perm[m]);
        }
        assert(normalized_evidence(items@, r@, idx2));
    }
    r
}

/// No item whose id falls outside the closed set reaches fusion: every kept item
/// comes from an input whose id reads as one of the closed set.
pub proof fn lemma_unknown_ids_dropped(raw: RawEvidence, item: EvidenceItem)
    requires
        kept(raw, item),
    ensures
        id_of_text(lower_of(trim(raw.id@))) is Some,
        id_text(item.id) == lower_of(trim(raw.id@)),
{
}

pub open spec fn is_content(id: EvidenceId) -> bool {
    id == EvidenceId::LowSpecificity || id == EvidenceId::LogicalLeaps
}

pub open spec fn is_human(id: EvidenceId) -> bool {
    id == EvidenceId::HumanDetail || id == EvidenceId::StylisticVariance
}

pub open spec fn is_structural(id: EvidenceId) -> bool {
    id == EvidenceId::TemplateLike || id == EvidenceId::UniformStructure || id == EvidenceId::HighRepetition
        || id == EvidenceId::WeakHumanTrace
}

pub open spec fn max_i(a: int, b: int) -> int {
    if a >= b { a } else { b }
}

/// Strongest content evidence (`low_specificity`, `logical_leaps`), at least 0.
pub open spec fn content_strength(items: Seq<EvidenceItem>) -> int
    decreases items.len(),
{
    if items.len() == 0 {
        0
    } else {
        max_i(content_strength(items.drop_last()), if is_content(items.last().id) { items.last().score as int } else { 0 })
    }
}

/// Strongest human evidence (`human_detail`, `stylistic_variance`), as the negated
/// score, at least 0.
pub open spec fn human_strength(items: Seq<EvidenceItem>) -> int
    decreases items.len(),
{
    if items.len() == 0 {
        0
    } else {
        max_i(human_strength(items.drop_last()), if is_human(items.last().id) { -items.last().score } else { 0 })
    }
}

/// Strongest structural evidence, at least 0.
pub open spec fn structural_strength(items: Seq<EvidenceItem>) -> int
    decreases items.len(),
{
    if items.len() == 0 {
        0
    } else {
        max_i(structural_strength(items.drop_last()), if is_structural(items.last().id) { items.last().score as int } else { 0 })
    }
}

/// The strongest evidence of each family, in millionths.
#[derive(Debug, Clone, Copy, PartialEq, Eq, Structural)]
pub struct EvidenceSummary {
    pub content_strength: i64,
    pub human_strength: i64,
    pub structural_strength: i64,
}

pub open spec fn summary_of(items: Seq<EvidenceItem>) -> EvidenceSummary {
    EvidenceSummary {
        content_strength: content_strength(items) as i64,
        human_strength: human_strength(items) as i64,
        structural_strength: structural_strength(items) as i64,
    }
}

/// Every item's score lies within `[-SCALE, SCALE]`.
pub open spec fn scores_bounded(items: Seq<EvidenceItem>) -> bool {
    forall|i: int| 0 <= i < items.len() ==> -SCALE <= #[trigger] items[i].score <= SCALE
}

proof fn lemma_strengths_bounded(items: Seq<EvidenceItem>)
    requires
        scores_bounded(items),
    ensures
        0 <= content_strength(items) <= SCALE,
        0 <= human_strength(items) <= SCALE,
        0 <= structural_strength(items) <= SCALE,
    decreases items.len(),
{
    if items.len() > 0 {
        lemma_strengths_bounded(items.drop_last());
        assert(-SCALE <= items[items.len() - 1].score <= SCALE);
    }
}

/// The strongest content, human and structural evidence among `items`.
pub fn summarize_evidence(items: &[EvidenceItem]) -> (r: EvidenceSummary)
    requires
        scores_bounded(items@),
    ensures
        r == summary_of(items@),
{
    let mut content: i64 = 0;
    let mut human: i64 = 0;
    let mut structural: i64 = 0;
    let mut i: usize = 0;
    while i < items.len()
        invariant
            i <= items.len(),
            scores_bounded(items@),
            content == content_strength(items@.take(i as int)),
            human == human_strength(items@.take(i as int)),
            structural == structural_strength(items@.take(i as int)),
        decreases items.len() - i,
    {
        let ghost pre = items@.take(i as int);
        proof {
            assert(items@.take(i + 1).drop_last() =~= pre);
            lemma_strengths_bounded(pre);
            assert(-SCALE <= items@[i as int].score <= SCALE);
        }
        let item = &items[i];
        match item.id {
            EvidenceId::LowSpecificity | EvidenceId::LogicalLeaps => {
                if item.score > content {
                    content = item.score;
                }
            },
            EvidenceId::HumanDetail | EvidenceId::StylisticVariance => {
                if -item.score > human {
                    human = -item.score;
                }
            },
            _ => {
                if item.score > structural {
                    structural = item.score;
                }
            },
        }
        i += 1;
    }
    assert(items@.take(items.len() as int) =~= items@);
    EvidenceSummary { content_strength: content, human_strength: human, structural_strength: structural }
}

/// How strongly a document profile marks the text as academic (millionths): none
/// without an academic profile, 0.6 for a partial one, 1 for a valid one.
pub open spec fn strength_of(profile: Option<DocumentProfile>, catalog: SubjectCatalog) -> i64 {
    match profile {
        Some(p) => if !academic(p, catalog.categories@) {
            0
        } else {
            match recorded_validity(p.validity@) {
                ProfileValidity::Valid => 1000000,
                ProfileValidity::Partial => 600000,
                ProfileValidity::Invalid => 0,
            }
        },
        None => 0,
    }
}

pub fn profile_strength(profile: Option<&DocumentProfile>, catalog: &SubjectCatalog) -> (r: i64)
    ensures
        r == strength_of(
            match profile {
                Some(p) => Some(*p),
                None => None,
            },
            *catalog,
        ),
{
    match profile {
        Some(p) => {
            if !is_academic_profile(p, catalog) {
                return 0;
            }
            match profile_validity(p) {
                ProfileValidity::Valid => 1000000,
                ProfileValidity::Partial => 600000,
                ProfileValidity::Invalid => 0,
            }
        },
        None => 0,
    }
}

/// The base weight of an evidence kind and how much academic strength discounts it,
/// both in millionths.
pub open spec fn weight_parts(id: EvidenceId) -> (int, int) {
    match id {
        EvidenceId::TemplateLike => (1000000, 600000),
        EvidenceId::LowSpecificity => (900000, 250000),
        EvidenceId::UniformStructure => (800000, 600000),
        EvidenceId::HighRepetition => (900000, 400000),
        EvidenceId::WeakHumanTrace => (700000, 650000),
        EvidenceId::LogicalLeaps => (700000, 0),
        EvidenceId::HumanDetail => (1000000, 0),
        EvidenceId::StylisticVariance => (700000, 0),
    }
}

/// The weight of an evidence kind (millionths): its base weight times
/// `1 - discount * strength`, rounded down to a millionth.
pub open spec fn weight_of(id: EvidenceId, strength: int) -> int {
    let (base, k) = weight_parts(id);
    base * (SCALE - k * strength / (SCALE as int)) / (SCALE as int)
}

pub fn evidence_weight(id: EvidenceId, strength: i64) -> (r: i64)
    requires
        0 <= strength <= SCALE,
    ensures
        r == weight_of(id, strength as int),
        0 < r <= SCALE,
{
    let (base, k): (i64, i64) = match id {
        EvidenceId::TemplateLike => (1000000, 600000),
        EvidenceId::LowSpecificity => (900000, 250000),
        EvidenceId::UniformStructure => (800000, 600000),
        EvidenceId::HighRepetition => (900000, 400000),
        EvidenceId::WeakHumanTrace => (700000, 650000),
        EvidenceId::LogicalLeaps => (700000, 0),
        EvidenceId::HumanDetail => (1000000, 0),
        EvidenceId::StylisticVariance => (700000, 0),
    };
    assert(0 <= k * strength <= 650000 * SCALE) by (nonlinear_arith)
        requires 0 <= k <= 650000, 0 <= strength <= SCALE;
    let d = k * strength / SCALE;
    assert(0 <= d <= 650000) by (nonlinear_arith)
        requires d == k * strength / (SCALE as int), 0 <= k * strength <= 650000 * SCALE;
    assert(base * (SCALE - d) >= 700000 * 350000) by (nonlinear_arith)
        requires 700000 <= base <= 1000000, 0 <= d <= 650000;
    assert(base * (SCALE - d) <= 1000000 * SCALE) by (nonlinear_arith)
        requires 700000 <= base <= 1000000, 0 <= d <= 650000;
    let w = base * (SCALE - d) / SCALE;
    assert(0 < w <= SCALE) by (nonlinear_arith)
        requires w == base * (SCALE - d) / (SCALE as int), 700000 * 350000 <= base * (SCALE - d) <= 1000000 * SCALE;
    w
}

/// `x` millionths of a unit, in whole units rounded toward zero (as integer division
/// does).
pub open spec fn toward_zero(x: int) -> int {
    if x >= 0 {
        x / (SCALE as int)
    } else {
        -((-x) / (SCALE as int))
    }
}

/// The weighted sum of evidence scores (millionths) over `items[0..n]`.
pub open spec fn weighted_sum(items: Seq<EvidenceItem>, strength: int, n: int) -> int
    decreases n,
{
    if n <= 0 {
        0
    } else {
        weighted_sum(items, strength, n - 1) + toward_zero(weight_of(items[n - 1].id, strength) * items[n - 1].score)
    }
}

/// The evidence logit (millionths): the weighted sum of the scores, clamped to
/// `[-3, 3]`; `None` without evidence.
pub open spec fn evidence_logit_of(items: Seq<EvidenceItem>, strength: int) -> Option<i64> {
    if items.len() == 0 {
        None
    } else {
        let s = weighted_sum(items, strength, items.len() as int);
        Some((if s < -3 * SCALE { -3 * SCALE } else if s > 3 * SCALE { 3 * SCALE } else { s }) as i64)
    }
}

proof fn lemma_weighted_sum_bound(items: Seq<EvidenceItem>, strength: int, n: int)
    requires
        scores_bounded(items),
        0 <= strength <= SCALE,
        0 <= n <= items.len(),
    ensures
        -n * SCALE <= weighted_sum(items, strength, n) <= n * SCALE,
    decreases n,
{
    if n > 0 {
        lemma_weighted_sum_bound(items, strength, n - 1);
        let w = weight_of(items[n - 1].id, strength);
        let sc = items[n - 1].score as int;
        assert(-SCALE <= sc <= SCALE);
        assert(0 <= w <= SCALE) by {
            let (base, k) = weight_parts(items[n - 1].id);
            assert(0 <= k * strength <= 650000 * SCALE) by (nonlinear_arith)
                requires 0 <= k <= 650000, 0 <= strength <= SCALE;
            assert(0 <= k * strength / (SCALE as int) <= 650000) by (nonlinear_arith)
                requires 0 <= k * strength <= 650000 * SCALE;
            assert(0 <= base * (SCALE - k * strength / (SCALE as int)) <= SCALE * SCALE) by (nonlinear_arith)
                requires 0 <= base <= SCALE, 0 <= k * strength / (SCALE as int) <= 650000;
            assert(0 <= base * (SCALE - k * strength / (SCALE as int)) / (SCALE as int) <= SCALE) by (nonlinear_arith)
                requires 0 <= base * (SCALE - k * strength / (SCALE as int)) <= SCALE * SCALE;
        }
        assert(-SCALE * SCALE <= w * sc <= SCALE * SCALE) by (nonlinear_arith)
            requires 0 <= w <= SCALE, -SCALE <= sc <= SCALE;
        assert(-SCALE <= toward_zero(w * sc) <= SCALE) by (nonlinear_arith)
            requires -SCALE * SCALE <= w * sc <= SCALE * SCALE;
    }
}

/// The evidence logit of `items` under academic strength `strength`; see
/// `evidence_logit_of`. Every item counts: no kind of the closed set weighs nothing.
pub fn evidence_logit(items: &[EvidenceItem], strength: i64) -> (r: Option<i64>)
    requires
        scores_bounded(items@),
        0 <= strength <= SCALE,
    ensures
        r == evidence_logit_of(items@, strength as int),
{
    if items.len() == 0 {
        return None;
    }
    let mut sum: i128 = 0;
    let mut i: usize = 0;
    while i < items.len()
        invariant
            scores_bounded(items@),
            0 <= strength <= SCALE,
            i <= items.len(),
            sum == weighted_sum(items@, strength as int, i as int),
        decreases items.len() - i,
    {
        proof {
            lemma_weighted_sum_bound(items@, strength as int, i + 1);
            lemma_weighted_sum_bound(items@, strength as int, i as int);
            assert(-SCALE <= items@[i as int].score <= SCALE);
            assert((i + 1) * SCALE <= 18446744073709551616 * SCALE) by (nonlinear_arith)
                requires i + 1 <= 18446744073709551616;
        }
        let w = evidence_weight(items[i].id, strength);
        let sc = items[i].score;
        assert(-SCALE * SCALE <= w * sc <= SCALE * SCALE) by (nonlinear_arith)
            requires 0 < w <= SCALE, -SCALE <= sc <= SCALE;
        assert(-SCALE <= toward_zero(w * sc) <= SCALE) by (nonlinear_arith)
            requires -SCALE * SCALE <= w * sc <= SCALE * SCALE;
        let prod: i64 = w * sc;
        let part: i64 = prod / SCALE;
        assert(part == toward_zero(prod as int));
        sum = sum + part as i128;
        i += 1;
    }
    let clamped: i64 = if sum < -3 * (SCALE as i128) {
        -3 * SCALE
    } else if sum > 3 * (SCALE as i128) {
        3 * SCALE
    } else {
        sum as i64
    };
    Some(clamped)
}

} // verus!
