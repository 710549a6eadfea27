//! The subject catalog (categories and their disciplines) and the document profile
//! checked against it.
use vstd::prelude::*;
use crate::providers::{contains_text, text_contains};
use crate::sentences::{trim, trimmed};
use crate::text::{lower_of, lowercase, same_text};

verus! {

/// A category of the catalog and the disciplines under it.
#[derive(Debug, Clone)]
pub struct CatalogCategory {
    pub category: String,
    pub disciplines: Vec<String>,
}

/// The subject catalog of one year: categories in order, each with its disciplines.
#[derive(Debug, Clone)]
pub struct SubjectCatalog {
    pub year: i32,
    pub categories: Vec<CatalogCategory>,
}

/// The category name a profile falls back to when its own is unknown.
pub open spec fn fallback_category() -> Seq<char> {
    "交叉学科"@
}

pub open spec fn has_category(es: Seq<CatalogCategory>, c: Seq<char>) -> bool {
    exists|i: int| 0 <= i < es.len() && (#[trigger] es[i]).category@ == c
}

/// Index of the last entry of category `c`, or -1: a later entry of the same category
/// replaces the disciplines of an earlier one.
pub open spec fn last_entry(es: Seq<CatalogCategory>, c: Seq<char>) -> int
    decreases es.len(),
{
    if es.len() == 0 {
        -1
    } else if es.last().category@ == c {
        es.len() - 1
    } else {
        last_entry(es.drop_last(), c)
    }
}

pub open spec fn lists(e: CatalogCategory, d: Seq<char>) -> bool {
    exists|k: int| 0 <= k < e.disciplines.len() && (#[trigger] e.disciplines@[k])@ == d
}

/// Discipline `d` belongs to category `c`.
pub open spec fn discipline_in(es: Seq<CatalogCategory>, c: Seq<char>, d: Seq<char>) -> bool {
    last_entry(es, c) >= 0 && lists(es[last_entry(es, c)], d)
}

/// Index of the first entry at or after `i` that lists discipline `d`, or -1.
pub open spec fn first_listing(es: Seq<CatalogCategory>, d: Seq<char>, i: int) -> int
    decreases es.len() - i,
{
    if i < 0 || i >= es.len() {
        -1
    } else if lists(es[i], d) {
        i
    } else {
        first_listing(es, d, i + 1)
    }
}

fn lists_exec(e: &CatalogCategory, d: &str) -> (r: bool)
    ensures
        r == lists(*e, d@),
{
    let mut k: usize = 0;
    while k < e.disciplines.len()
        invariant
            k <= e.disciplines.len(),
            forall|j: int| 0 <= j < k ==> (#[trigger] e.disciplines@[j])@ != d@,
        decreases e.disciplines.len() - k,
    {
        if same_text(e.disciplines[k].as_str(), d) {
            return true;
        }
        k += 1;
    }
    false
}

impl SubjectCatalog {
    /// The year of the catalog.
    pub fn catalog_year(&self) -> (r: i32)
        ensures
            r == self.year,
    {
        self.year
    }

    /// Whether `c` is a category of the catalog.
    pub fn has_category(&self, c: &str) -> (r: bool)
        ensures
            r == has_category(self.categories@, c@),
    {
        let mut i: usize = 0;
        while i < self.categories.len()
            invariant
                i <= self.categories.len(),
                forall|j: int| 0 <= j < i ==> (#[trigger] self.categories@[j]).category@ != c@,
            decreases self.categories.len() - i,
        {
            if same_text(self.categories[i].category.as_str(), c) {
                assert(self.categories@[i as int].category@ == c@);
                return true;
            }
            i += 1;
        }
        false
    }

    /// Whether discipline `d` belongs to category `c`.
    pub fn discipline_in(&self, c: &str, d: &str) -> (r: bool)
        ensures
            r == discipline_in(self.categories@, c@, d@),
    {
        let es = &self.categories;
        let mut i: usize = es.len();
        assert(es@.take(es.len() as int) =~= es@);
        while i > 0
            invariant
                es@ == self.categories@,
                i <= es.len(),
                last_entry(es@, c@) == last_entry(es@.take(i as int), c@),
            decreases i,
        {
            assert(es@.take(i as int).drop_last() =~= es@.take(i - 1));
            assert(es@.take(i as int).last() == es@[i - 1]);
            if same_text(es[i - 1].category.as_str(), c) {
                return lists_exec(&es[i - 1], d);
            }
            i -= 1;
        }
        false
    }

    /// The category of the first entry that lists discipline `d`, if any.
    pub fn category_of_discipline(&self, d: &str) -> (r: Option<String>)
        ensures
            match r {
                Some(c) => first_listing(self.categories@, d@, 0) >= 0 && c@ == self.categories@[first_listing(
                    self.categories@,
                    d@,
                    0,
                )].category@,
                None => first_listing(self.categories@, d@, 0) == -1,
            },
    {
        let es = &self.categories;
        let mut i: usize = 0;
        while i < es.len()
            invariant
                es@ == self.categories@,
                i <= es.len(),
                first_listing(es@, d@, 0) == first_listing(es@, d@, i as int),
            decreases es.len() - i,
        {
            if lists_exec(&es[i], d) {
                assert(first_listing(es@, d@, i as int) == i);
                return Some(es[i].category.clone());
            }
            i += 1;
        }
        None
    }
}

/// How far a document profile agrees with the catalog.
#[derive(Debug, Clone, Copy, PartialEq, Eq, Structural)]
pub enum ProfileValidity {
    Valid,
    Partial,
    Invalid,
}

pub open spec fn validity_text(v: ProfileValidity) -> Seq<char> {
    match v {
        ProfileValidity::Valid => "valid"@,
        ProfileValidity::Partial => "partial"@,
        ProfileValidity::Invalid => "invalid"@,
    }
}

impl ProfileValidity {
    pub fn as_str(self) -> (r: &'static str)
        ensures
            r@ == validity_text(self),
    {
        match self {
            ProfileValidity::Valid => "valid",
            ProfileValidity::Partial => "partial",
            ProfileValidity::Invalid => "invalid",
        }
    }
}

/// What a remote model said about the whole document.
#[derive(Debug, Clone, Default)]
pub struct DocumentProfile {
    pub category: String,
    pub summary: String,
    pub discipline: Option<String>,
    pub subfield: Option<String>,
    pub paper_type: Option<String>,
    pub conventions: Vec<String>,
    pub validity: String,
}

/// The validity recorded in a profile; anything unrecognised counts as partial.
pub open spec fn recorded_validity(v: Seq<char>) -> ProfileValidity {
    if v == "valid"@ {
        ProfileValidity::Valid
    } else if v == "invalid"@ {
        ProfileValidity::Invalid
    } else {
        ProfileValidity::Partial
    }
}

pub fn profile_validity(profile: &DocumentProfile) -> (r: ProfileValidity)
    ensures
        r == recorded_validity(profile.validity@),
{
    let v = profile.validity.as_str();
    proof {
        reveal_strlit("valid");
        reveal_strlit("partial");
        reveal_strlit("invalid");
        assert("partial"@.len() != "valid"@.len());
        assert("partial"@[0] != "invalid"@[0]);
        assert("valid"@.len() != "invalid"@.len());
    }
    if same_text(v, "valid") {
        ProfileValidity::Valid
    } else if same_text(v, "partial") {
        ProfileValidity::Partial
    } else if same_text(v, "invalid") {
        ProfileValidity::Invalid
    } else {
        ProfileValidity::Partial
    }
}

/// The category that validation keeps: the trimmed category when the catalog knows
/// it, the fallback category otherwise.
pub open spec fn normalized_category(es: Seq<CatalogCategory>, c: Seq<char>) -> Seq<char> {
    if has_category(es, trim(c)) {
        trim(c)
    } else {
        fallback_category()
    }
}

/// `after` and `r` are what `validate_document_profile` makes of `before`.
pub open spec fn validation(before: DocumentProfile, es: Seq<CatalogCategory>, after: DocumentProfile, r: ProfileValidity) -> bool {
    let n = normalized_category(es, before.category@);
    let d = match before.discipline {
        Some(x) => Some(trim(x@)),
        None => None::<Seq<char>>,
    };
    let moved = d is Some && !discipline_in(es, n, d->0) && n == fallback_category() && first_listing(es, d->0, 0) >= 0;
    let cat = if moved {
        es[first_listing(es, d->0, 0)].category@
    } else {
        n
    };
    let valid = d is Some && discipline_in(es, cat, d->0);
    &&& after.category@ == cat
    &&& r == (if !has_category(es, cat) {
        ProfileValidity::Invalid
    } else if valid {
        ProfileValidity::Valid
    } else {
        ProfileValidity::Partial
    })
    &&& after.validity@ == validity_text(r)
    &&& after.summary == before.summary
    &&& after.discipline == before.discipline
    &&& after.subfield == before.subfield
    &&& after.paper_type == before.paper_type
    &&& after.conventions == before.conventions
}

/// Checks a profile against the catalog. The category is trimmed, or replaced by the
/// fallback category when the catalog does not know it; a profile under the fallback
/// category whose discipline the catalog lists elsewhere moves to that discipline's
/// category. The profile is valid when its discipline belongs to its category, partial
/// when not, and invalid when its category is unknown; that result is also written
/// into the profile.
pub fn validate_document_profile(profile: &mut DocumentProfile, catalog: &SubjectCatalog) -> (r: ProfileValidity)
    ensures
        validation(*old(profile), catalog.categories@, *final(profile), r),
{
    let category = trimmed(profile.category.as_str());
    let normalized = if catalog.has_category(category.as_str()) {
        category
    } else {
        "交叉学科".to_string()
    };
    let is_fallback = same_text(normalized.as_str(), "交叉学科");
    profile.category = normalized.clone();
    let mut discipline_valid = false;
    let disc = match &profile.discipline {
        Some(d) => Some(trimmed(d.as_str())),
        None => None,
    };
    match &disc {
        Some(dt) => {
            discipline_valid = catalog.discipline_in(normalized.as_str(), dt.as_str());
            if !discipline_valid && is_fallback {
                match catalog.category_of_discipline(dt.as_str()) {
                    Some(found) => {
                        discipline_valid = catalog.discipline_in(found.as_str(), dt.as_str());
                        profile.category = found;
                    },
                    None => {},
                }
            }
        },
        None => {},
    }
    let validity = if !catalog.has_category(profile.category.as_str()) {
        ProfileValidity::Invalid
    } else if discipline_valid {
        ProfileValidity::Valid
    } else {
        ProfileValidity::Partial
    };
    profile.validity = validity.as_str().to_string();
    validity
}

/// `s` is present and not blank.
pub open spec fn filled(s: Option<String>) -> bool {
    match s {
        Some(x) => trim(x@).len() > 0,
        None => false,
    }
}

/// The lowercased paper type names an academic kind of writing.
pub open spec fn academic_type(p: Seq<char>) -> bool {
    contains_text(p, "论文"@) || contains_text(p, "综述"@) || contains_text(p, "研究"@) || contains_text(p, "实验"@)
        || contains_text(p, "报告"@) || contains_text(p, "期刊"@) || contains_text(p, "学位"@) || contains_text(
        p,
        "thesis"@,
    ) || contains_text(p, "paper"@) || contains_text(p, "research"@) || contains_text(p, "journal"@)
}

/// A profile describes academic writing: it is not invalid, and either its paper type
/// says so or its category is known and it names a discipline or subfield.
pub open spec fn academic(profile: DocumentProfile, es: Seq<CatalogCategory>) -> bool {
    recorded_validity(profile.validity@) != ProfileValidity::Invalid && (academic_type(
        lower_of(
            match profile.paper_type {
                Some(p) => p@,
                None => Seq::<char>::empty(),
            },
        ),
    ) || (has_category(es, trim(profile.category@)) && (filled(profile.discipline) || filled(profile.subfield))))
}

fn filled_exec(s: &Option<String>) -> (r: bool)
    ensures
        r == filled(*s),
{
    match s {
        Some(x) => !trimmed(x.as_str()).as_str().is_empty(),
        None => false,
    }
}

pub fn is_academic_profile(profile: &DocumentProfile, catalog: &SubjectCatalog) -> (r: bool)
    ensures
        r == academic(*profile, catalog.categories@),
{
    if profile_validity(profile) == ProfileValidity::Invalid {
        return false;
    }
    let category = trimmed(profile.category.as_str());
    let is_known = catalog.has_category(category.as_str());
    let has_discipline = filled_exec(&profile.discipline) || filled_exec(&profile.subfield);
    let paper_type = match &profile.paper_type {
        Some(p) => p.as_str(),
        None => "",
    };
    proof {
        reveal_strlit("");
    }
    assert(paper_type@ == match profile.paper_type {
        Some(p) => p@,
        None => Seq::<char>::empty(),
    });
    let lower = lowercase(paper_type);
    let p = lower.as_str();
    let is_academic_type = text_contains(p, "论文") || text_contains(p, "综述") || text_contains(p, "研究")
        || text_contains(p, "实验") || text_contains(p, "报告") || text_contains(p, "期刊") || text_contains(p, "学位")
        || text_contains(p, "thesis") || text_contains(p, "paper") || text_contains(p, "research") || text_contains(
        p,
        "journal",
    );
    assert(p@ == lower_of(
        match profile.paper_type {
            Some(p) => p@,
            None => Seq::<char>::empty(),
        },
    ));
    assert(is_academic_type == academic_type(p@));
    assert(is_known == has_category(catalog.categories@, trim(profile.category@)));
    assert(has_discipline == (filled(profile.discipline) || filled(profile.subfield)));
    is_academic_type || (is_known && has_discipline)
}

} // verus!
