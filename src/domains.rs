//! Normalisation of the document profile that a remote model returns: the category
//! is mapped onto the fixed list of discipline domains, and a category that names a
//! kind of paper is kept as the paper type.
use vstd::prelude::*;
use crate::catalog::{DocumentProfile, ProfileValidity, SubjectCatalog, validate_document_profile, validation};
use crate::providers::{contains_text, text_contains};
use crate::sentences::{trim, trimmed};
use crate::text::{lower_of, lowercase, same_text};

verus! {

/// The domain that the keywords of a discipline name point to, if any: Chinese
/// keywords are looked up in the trimmed name, English ones in its lowercase form.
pub open spec fn inferred_domain(d: Seq<char>) -> Option<Seq<char>> {
    let t = trim(d);
    let l = lower_of(t);
    if t.len() == 0 {
        None
    } else if contains_text(t, "哲学"@)
            || contains_text(l, "philosophy"@) {
        Some("哲学"@)
    } else if contains_text(t, "经济"@)
            || contains_text(t, "金融"@)
            || contains_text(t, "会计"@)
            || contains_text(t, "财政"@)
            || contains_text(l, "economics"@)
            || contains_text(l, "finance"@) {
        Some("经济学"@)
    } else if contains_text(t, "法学"@)
            || contains_text(t, "法律"@)
            || contains_text(t, "司法"@)
            || contains_text(t, "公安"@)
            || contains_text(t, "政治"@)
            || contains_text(t, "社会"@)
            || contains_text(l, "law"@)
            || contains_text(l, "politic"@)
            || contains_text(l, "sociology"@) {
        Some("法学"@)
    } else if contains_text(t, "教育"@)
            || contains_text(l, "education"@) {
        Some("教育学"@)
    } else if contains_text(t, "文学"@)
            || contains_text(t, "语言"@)
            || contains_text(t, "新闻"@)
            || contains_text(t, "传播"@)
            || contains_text(l, "literature"@)
            || contains_text(l, "linguistics"@)
            || contains_text(l, "journalism"@)
            || contains_text(l, "communication"@) {
        Some("文学"@)
    } else if contains_text(t, "历史"@)
            || contains_text(t, "考古"@)
            || contains_text(l, "history"@) {
        Some("历史学"@)
    } else if contains_text(t, "数学"@)
            || contains_text(t, "物理"@)
            || contains_text(t, "化学"@)
            || contains_text(t, "生物"@)
            || contains_text(t, "地理"@)
            || contains_text(t, "天文"@)
            || contains_text(t, "地球"@)
            || contains_text(l, "science"@)
            || contains_text(l, "mathematics"@)
            || contains_text(l, "physics"@)
            || contains_text(l, "chemistry"@)
            || contains_text(l, "biology"@)
            || contains_text(l, "geology"@)
            || contains_text(l, "astronomy"@) {
        Some("理学"@)
    } else if contains_text(t, "工程"@)
            || contains_text(t, "工学"@)
            || contains_text(t, "计算机"@)
            || contains_text(t, "信息"@)
            || contains_text(t, "电子"@)
            || contains_text(t, "通信"@)
            || contains_text(t, "材料"@)
            || contains_text(t, "机械"@)
            || contains_text(t, "土木"@)
            || contains_text(t, "建筑"@)
            || contains_text(t, "环境"@)
            || contains_text(t, "化工"@)
            || contains_text(t, "软件"@)
            || contains_text(l, "engineering"@)
            || contains_text(l, "computer"@)
            || contains_text(l, "information"@)
            || contains_text(l, "software"@) {
        Some("工学"@)
    } else if contains_text(t, "农"@)
            || contains_text(t, "林"@)
            || contains_text(t, "畜"@)
            || contains_text(t, "兽"@)
            || contains_text(t, "水产"@)
            || contains_text(l, "agriculture"@)
            || contains_text(l, "forestry"@)
            || contains_text(l, "veterinary"@) {
        Some("农学"@)
    } else if contains_text(t, "医学"@)
            || contains_text(t, "临床"@)
            || contains_text(t, "护理"@)
            || contains_text(t, "药学"@)
            || contains_text(t, "口腔"@)
            || contains_text(t, "中医"@)
            || contains_text(t, "公共卫生"@)
            || contains_text(l, "medicine"@)
            || contains_text(l, "clinical"@)
            || contains_text(l, "nursing"@)
            || contains_text(l, "pharmacy"@) {
        Some("医学"@)
    } else if contains_text(t, "军事"@)
            || contains_text(l, "military"@)
            || contains_text(l, "defense"@) {
        Some("军事学"@)
    } else if contains_text(t, "管理"@)
            || contains_text(t, "工商"@)
            || contains_text(t, "公共管理"@)
            || contains_text(t, "图书"@)
            || contains_text(t, "档案"@)
            || contains_text(t, "信息管理"@)
            || contains_text(l, "management"@)
            || contains_text(l, "business"@)
            || contains_text(l, "administration"@) {
        Some("管理学"@)
    } else if contains_text(t, "艺术"@)
            || contains_text(t, "美术"@)
            || contains_text(t, "音乐"@)
            || contains_text(t, "戏剧"@)
            || contains_text(t, "舞蹈"@)
            || contains_text(t, "设计"@)
            || contains_text(l, "art"@)
            || contains_text(l, "design"@)
            || contains_text(l, "music"@)
            || contains_text(l, "drama"@) {
        Some("艺术学"@)
    } else if contains_text(t, "交叉"@)
            || contains_text(l, "interdisciplinary"@) {
        Some("交叉学科"@)
    } else {
        None
    }
}

/// The domain of the fixed list that a discipline name points to; see `inferred_domain`.
pub fn infer_domain_from_discipline(discipline: Option<&str>) -> (r: Option<&'static str>)
    ensures
        match discipline {
            None => r is None,
            Some(d) => match r {
                Some(x) => inferred_domain(d@) == Some(x@),
                None => inferred_domain(d@) is None,
            },
        },
{
    let d = match discipline {
        Some(d) => d,
        None => return None,
    };
    let t = trimmed(d);
    let ts = t.as_str();
    if ts.is_empty() {
        return None;
    }
    let lower = lowercase(ts);
    let ls = lower.as_str();
    if text_contains(ts, "哲学")
        || text_contains(ls, "philosophy") {
        return Some("哲学");
    }
    if text_contains(ts, "经济")
        || text_contains(ts, "金融")
        || text_contains(ts, "会计")
        || text_contains(ts, "财政")
        || text_contains(ls, "economics")
        || text_contains(ls, "finance") {
        return Some("经济学");
    }
    if text_contains(ts, "法学")
        || text_contains(ts, "法律")
        || text_contains(ts, "司法")
        || text_contains(ts, "公安")
        || text_contains(ts, "政治")
        || text_contains(ts, "社会")
        || text_contains(ls, "law")
        || text_contains(ls, "politic")
        || text_contains(ls, "sociology") {
        return Some("法学");
    }
    if text_contains(ts, "教育")
        || text_contains(ls, "education") {
        return Some("教育学");
    }
    if text_contains(ts, "文学")
        || text_contains(ts, "语言")
        || text_contains(ts, "新闻")
        || text_contains(ts, "传播")
        || text_contains(ls, "literature")
        || text_contains(ls, "linguistics")
        || text_contains(ls, "journalism")
        || text_contains(ls, "communication") {
        return Some("文学");
    }
    if text_contains(ts, "历史")
        || text_contains(ts, "考古")
        || text_contains(ls, "history") {
        return Some("历史学");
    }
    if text_contains(ts, "数学")
        || text_contains(ts, "物理")
        || text_contains(ts, "化学")
        || text_contains(ts, "生物")
        || text_contains(ts, "地理")
        || text_contains(ts, "天文")
        || text_contains(ts, "地球")
        || text_contains(ls, "science")
        || text_contains(ls, "mathematics")
        || text_contains(ls, "physics")
        || text_contains(ls, "chemistry")
        || text_contains(ls, "biology")
        || text_contains(ls, "geology")
        || text_contains(ls, "astronomy") {
        return Some("理学");
    }
    if text_contains(ts, "工程")
        || text_contains(ts, "工学")
        || text_contains(ts, "计算机")
        || text_contains(ts, "信息")
        || text_contains(ts, "电子")
        || text_contains(ts, "通信")
        || text_contains(ts, "材料")
        || text_contains(ts, "机械")
        || text_contains(ts, "土木")
        || text_contains(ts, "建筑")
        || text_contains(ts, "环境")
        || text_contains(ts, "化工")
        || text_contains(ts, "软件")
        || text_contains(ls, "engineering")
        || text_contains(ls, "computer")
        || text_contains(ls, "information")
        || text_contains(ls, "software") {
        return Some("工学");
    }
    if text_contains(ts, "农")
        || text_contains(ts, "林")
        || text_contains(ts, "畜")
        || text_contains(ts, "兽")
        || text_contains(ts, "水产")
        || text_contains(ls, "agriculture")
        || text_contains(ls, "forestry")
        || text_contains(ls, "veterinary") {
        return Some("农学");
    }
    if text_contains(ts, "医学")
        || text_contains(ts, "临床")
        || text_contains(ts, "护理")
        || text_contains(ts, "药学")
        || text_contains(ts, "口腔")
        || text_contains(ts, "中医")
        || text_contains(ts, "公共卫生")
        || text_contains(ls, "medicine")
        || text_contains(ls, "clinical")
        || text_contains(ls, "nursing")
        || text_contains(ls, "pharmacy") {
        return Some("医学");
    }
    if text_contains(ts, "军事")
        || text_contains(ls, "military")
        || text_contains(ls, "defense") {
        return Some("军事学");
    }
    if text_contains(ts, "管理")
        || text_contains(ts, "工商")
        || text_contains(ts, "公共管理")
        || text_contains(ts, "图书")
        || text_contains(ts, "档案")
        || text_contains(ts, "信息管理")
        || text_contains(ls, "management")
        || text_contains(ls, "business")
        || text_contains(ls, "administration") {
        return Some("管理学");
    }
    if text_contains(ts, "艺术")
        || text_contains(ts, "美术")
        || text_contains(ts, "音乐")
        || text_contains(ts, "戏剧")
        || text_contains(ts, "舞蹈")
        || text_contains(ts, "设计")
        || text_contains(ls, "art")
        || text_contains(ls, "design")
        || text_contains(ls, "music")
        || text_contains(ls, "drama") {
        return Some("艺术学");
    }
    if text_contains(ts, "交叉")
        || text_contains(ls, "interdisciplinary") {
        return Some("交叉学科");
    }
    None
}

/// The domain that a category text names: the first domain of the fixed list that it
/// contains, then the colloquial names of the branches, then what its keywords point to.
pub open spec fn matched_domain(v: Seq<char>, discipline: Option<Seq<char>>) -> Option<Seq<char>> {
    if contains_text(v, "哲学"@) {
        Some("哲学"@)
    } else if contains_text(v, "经济学"@) {
        Some("经济学"@)
    } else if contains_text(v, "法学"@) {
        Some("法学"@)
    } else if contains_text(v, "教育学"@) {
        Some("教育学"@)
    } else if contains_text(v, "文学"@) {
        Some("文学"@)
    } else if contains_text(v, "历史学"@) {
        Some("历史学"@)
    } else if contains_text(v, "理学"@) {
        Some("理学"@)
    } else if contains_text(v, "工学"@) {
        Some("工学"@)
    } else if contains_text(v, "农学"@) {
        Some("农学"@)
    } else if contains_text(v, "医学"@) {
        Some("医学"@)
    } else if contains_text(v, "军事学"@) {
        Some("军事学"@)
    } else if contains_text(v, "管理学"@) {
        Some("管理学"@)
    } else if contains_text(v, "艺术学"@) {
        Some("艺术学"@)
    } else if contains_text(v, "交叉学科"@) {
        Some("交叉学科"@)
    } else if contains_text(v, "理科"@) {
        Some("理学"@)
    } else if contains_text(v, "工科"@) {
        Some("工学"@)
    } else if contains_text(v, "医科"@) {
        Some("医学"@)
    } else if contains_text(v, "农科"@) {
        Some("农学"@)
    } else if contains_text(v, "商科"@) || contains_text(v, "经管"@) {
        let hint = match discipline {
            Some(d) => inferred_domain(d),
            None => None,
        };
        if hint == Some("经济学"@) || hint == Some("管理学"@) {
            hint
        } else {
            Some("管理学"@)
        }
    } else if contains_text(v, "文科"@) {
        Some("文学"@)
    } else {
        inferred_domain(v)
    }
}

pub fn match_domain(value: &str, discipline: Option<&str>) -> (r: Option<&'static str>)
    ensures
        match r {
            Some(x) => matched_domain(value@, match discipline {
                Some(d) => Some(d@),
                None => None,
            }) == Some(x@),
            None => matched_domain(value@, match discipline {
                Some(d) => Some(d@),
                None => None,
            }) is None,
        },
{
    if text_contains(value, "哲学") {
        return Some("哲学");
    }
    if text_contains(value, "经济学") {
        return Some("经济学");
    }
    if text_contains(value, "法学") {
        return Some("法学");
    }
    if text_contains(value, "教育学") {
        return Some("教育学");
    }
    if text_contains(value, "文学") {
        return Some("文学");
    }
    if text_contains(value, "历史学") {
        return Some("历史学");
    }
    if text_contains(value, "理学") {
        return Some("理学");
    }
    if text_contains(value, "工学") {
        return Some("工学");
    }
    if text_contains(value, "农学") {
        return Some("农学");
    }
    if text_contains(value, "医学") {
        return Some("医学");
    }
    if text_contains(value, "军事学") {
        return Some("军事学");
    }
    if text_contains(value, "管理学") {
        return Some("管理学");
    }
    if text_contains(value, "艺术学") {
        return Some("艺术学");
    }
    if text_contains(value, "交叉学科") {
        return Some("交叉学科");
    }
    if text_contains(value, "理科") {
        return Some("理学");
    }
    if text_contains(value, "工科") {
        return Some("工学");
    }
    if text_contains(value, "医科") {
        return Some("医学");
    }
    if text_contains(value, "农科") {
        return Some("农学");
    }
    if text_contains(value, "商科") || text_contains(value, "经管") {
        match infer_domain_from_discipline(discipline) {
            Some(domain) => {
                if same_text(domain, "经济学") || same_text(domain, "管理学") {
                    return Some(domain);
                }
            },
            None => {},
        }
        return Some("管理学");
    }
    if text_contains(value, "文科") {
        return Some("文学");
    }
    infer_domain_from_discipline(Some(value))
}

/// The domain that a profile's category becomes: from the trimmed category text if it
/// names one, else from the discipline, else the fallback domain.
pub open spec fn normalized_domain(v: Seq<char>, discipline: Option<Seq<char>>) -> Seq<char> {
    let t = trim(v);
    let hint = match discipline {
        Some(d) => inferred_domain(d),
        None => None,
    };
    if t.len() > 0 && matched_domain(t, discipline) is Some {
        matched_domain(t, discipline)->0
    } else if hint is Some {
        hint->0
    } else {
        "交叉学科"@
    }
}

pub fn normalize_domain(value: &str, discipline: Option<&str>) -> (r: String)
    ensures
        r@ == normalized_domain(value@, match discipline {
            Some(d) => Some(d@),
            None => None,
        }),
{
    let t = trimmed(value);
    if !t.as_str().is_empty() {
        match match_domain(t.as_str(), discipline) {
            Some(domain) => return domain.to_string(),
            None => {},
        }
    }
    match infer_domain_from_discipline(discipline) {
        Some(domain) => domain.to_string(),
        None => "交叉学科".to_string(),
    }
}

/// The trimmed text names a kind of paper rather than a domain.
pub open spec fn paper_type_like(v: Seq<char>) -> bool {
    let t = trim(v);
    let l = lower_of(t);
    t.len() > 0 && (contains_text(t, "论文"@)
            || contains_text(t, "综述"@)
            || contains_text(t, "实验"@)
            || contains_text(t, "报告"@)
            || contains_text(t, "作业"@)
            || contains_text(t, "课程"@)
            || contains_text(t, "说明文"@)
            || contains_text(t, "调查"@)
            || contains_text(t, "调研"@)
            || contains_text(t, "毕业设计"@)
            || contains_text(l, "thesis"@)
            || contains_text(l, "paper"@)
            || contains_text(l, "report"@)
            || contains_text(l, "survey"@))
}

pub fn looks_like_paper_type(value: &str) -> (r: bool)
    ensures
        r == paper_type_like(value@),
{
    let t = trimmed(value);
    let ts = t.as_str();
    if ts.is_empty() {
        return false;
    }
    let lower = lowercase(ts);
    let ls = lower.as_str();
    text_contains(ts, "论文")
        || text_contains(ts, "综述")
        || text_contains(ts, "实验")
        || text_contains(ts, "报告")
        || text_contains(ts, "作业")
        || text_contains(ts, "课程")
        || text_contains(ts, "说明文")
        || text_contains(ts, "调查")
        || text_contains(ts, "调研")
        || text_contains(ts, "毕业设计")
        || text_contains(ls, "thesis")
        || text_contains(ls, "paper")
        || text_contains(ls, "report")
        || text_contains(ls, "survey")
}

/// `Some` of the trimmed text, unless it is blank.
pub fn normalize_optional_text(value: Option<String>) -> (r: Option<String>)
    ensures
        match value {
            Some(v) => if trim(v@).len() == 0 {
                r is None
            } else {
                r is Some && r->0@ == trim(v@)
            },
            None => r is None,
        },
{
    match value {
        Some(v) => {
            let t = trimmed(v.as_str());
            if t.as_str().is_empty() {
                None
            } else {
                Some(t)
            }
        },
        None => None,
    }
}

/// Why a profile returned by the remote model is refused.
#[derive(Debug, Clone, Copy, PartialEq, Eq, Structural)]
pub enum ProfileError {
    MissingSummary,
}

/// The trimmed, non-blank items of a list, in order.
pub open spec fn kept_items(s: Seq<String>) -> Seq<Seq<char>>
    decreases s.len(),
{
    if s.len() == 0 {
        Seq::empty()
    } else if trim(s.last()@).len() == 0 {
        kept_items(s.drop_last())
    } else {
        kept_items(s.drop_last()).push(trim(s.last()@))
    }
}

/// The trimmed text of an optional field, or `None` when it is missing or blank.
pub open spec fn optional_text(v: Option<String>) -> Option<Seq<char>> {
    match v {
        Some(x) => if trim(x@).len() == 0 {
            None
        } else {
            Some(trim(x@))
        },
        None => None,
    }
}

pub open spec fn opt_view(v: Option<String>) -> Option<Seq<char>> {
    match v {
        Some(x) => Some(x@),
        None => None,
    }
}

/// What `normalize_document_profile` keeps of `raw` before checking it against the
/// catalog: trimmed fields, blank optional fields dropped, the category mapped onto a
/// domain (with the discipline, else the subfield, as a hint), and a category that names
/// a kind of paper kept as the paper type when none was given.
pub open spec fn tidied(raw: DocumentProfile, q: DocumentProfile) -> bool {
    let raw_category = trim(raw.category@);
    let hint = if optional_text(raw.discipline) is Some {
        optional_text(raw.discipline)
    } else {
        optional_text(raw.subfield)
    };
    &&& q.summary@ == trim(raw.summary@)
    &&& opt_view(q.discipline) == optional_text(raw.discipline)
    &&& opt_view(q.subfield) == optional_text(raw.subfield)
    &&& opt_view(q.paper_type) == (if optional_text(raw.paper_type) is None && paper_type_like(raw_category) {
        Some(raw_category)
    } else {
        optional_text(raw.paper_type)
    })
    &&& q.category@ == normalized_domain(raw_category, hint)
    &&& q.conventions@.len() == kept_items(raw.conventions@).len()
    &&& forall|i: int| 0 <= i < q.conventions@.len() ==> (#[trigger] q.conventions@[i])@ == kept_items(raw.conventions@)[i]
    &&& q.validity == raw.validity
}

fn keep_items(items: &Vec<String>) -> (r: Vec<String>)
    ensures
        r@.len() == kept_items(items@).len(),
        forall|i: int| 0 <= i < r@.len() ==> (#[trigger] r@[i])@ == kept_items(items@)[i],
{
    let mut out: Vec<String> = Vec::new();
    let mut i: usize = 0;
    while i < items.len()
        invariant
            i <= items.len(),
            out@.len() == kept_items(items@.take(i as int)).len(),
            forall|k: int| 0 <= k < out@.len() ==> (#[trigger] out@[k])@ == kept_items(items@.take(i as int))[k],
        decreases items.len() - i,
    {
        assert(items@.take(i + 1).drop_last() =~= items@.take(i as int));
        let t = trimmed(items[i].as_str());
        if !t.as_str().is_empty() {
            out.push(t);
        }
        i += 1;
    }
    assert(items@.take(items.len() as int) =~= items@);
    out
}

/// Tidies a profile as returned by the remote model (see `tidied`), refuses it when
/// its summary is blank, and checks it against the catalog (see
/// `validate_document_profile`).
pub fn normalize_document_profile(raw: DocumentProfile, catalog: &SubjectCatalog) -> (r: Result<DocumentProfile, ProfileError>)
    ensures
        trim(raw.summary@).len() == 0 <==> r is Err,
        r is Err ==> r == Err::<DocumentProfile, ProfileError>(ProfileError::MissingSummary),
        r is Ok ==> exists|q: DocumentProfile, v: ProfileValidity|
            tidied(raw, q) && #[trigger] validation(q, catalog.categories@, r->Ok_0, v),
{
    let raw_category = trimmed(raw.category.as_str());
    let summary = trimmed(raw.summary.as_str());
    let discipline = normalize_optional_text(raw.discipline.clone());
    let subfield = normalize_optional_text(raw.subfield.clone());
    let mut paper_type = normalize_optional_text(raw.paper_type.clone());
    let hint: Option<&str> = match &discipline {
        Some(d) => Some(d.as_str()),
        None => match &subfield {
            Some(s) => Some(s.as_str()),
            None => None,
        },
    };
    let category = normalize_domain(raw_category.as_str(), hint);
    if paper_type.is_none() && looks_like_paper_type(raw_category.as_str()) {
        paper_type = Some(raw_category.clone());
    }
    let conventions = keep_items(&raw.conventions);
    if summary.as_str().is_empty() {
        return Err(ProfileError::MissingSummary);
    }
    let mut profile = DocumentProfile {
        category,
        summary,
        discipline,
        subfield,
        paper_type,
        conventions,
        validity: raw.validity,
    };
    let ghost q = profile;
    let v = validate_document_profile(&mut profile, catalog);
    assert(tidied(raw, q) && validation(q, catalog.categories@, profile, v));
    let r = Ok(profile);
    assert(validation(q, catalog.categories@, r->Ok_0, v));
    r
}

} // verus!
