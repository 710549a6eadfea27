//! Content filtering: paragraphs that are captions, tables of contents, references or
//! titles are told apart from body text by rules; the rest is left to a remote
//! classifier, whose answers are folded in here.
use vstd::prelude::*;
use crate::blocks::TextBlock;
use crate::providers::{contains_text, text_contains};
use crate::sentences::{trim, trimmed};
use crate::text::{chars_of, lower_of, lowercase, same_text};

verus! {

/// Whether `pattern` matches somewhere in `haystack`, or `None` when `pattern` does not
/// compile.
pub uninterp spec fn regex_outcome(pattern: Seq<char>, haystack: Seq<char>) -> Option<bool>;

/// Relies on regex::Regex::new (an error for an invalid or oversized pattern) and
/// Regex::is_match (whether the pattern matches anywhere in the haystack); what they
/// give depends on the two texts alone.
#[verifier::external_body]
fn regex_is_match(pattern: &str, haystack: &str) -> (r: Option<bool>)
    ensures
        r == regex_outcome(pattern@, haystack@),
{
    match regex::Regex::new(pattern) {
        Ok(re) => Some(re.is_match(haystack)),
        Err(_) => None,
    }
}

/// What `Regex::replace_all` makes of `haystack` with replacement template `rep`, or
/// `None` when `pattern` does not compile.
pub uninterp spec fn regex_replaced(pattern: Seq<char>, haystack: Seq<char>, rep: Seq<char>) -> Option<Seq<char>>;

/// Relies on regex::Regex::new (an error for an invalid or oversized pattern) and
/// Regex::replace_all (every match replaced by the expanded template); what they give
/// depends on the three texts alone.
#[verifier::external_body]
pub(crate) fn regex_replace_all(pattern: &str, haystack: &str, rep: &str) -> (r: Option<String>)
    ensures
        match r {
            Some(s) => regex_replaced(pattern@, haystack@, rep@) == Some(s@),
            None => regex_replaced(pattern@, haystack@, rep@) is None,
        },
{
    match regex::Regex::new(pattern) {
        Ok(re) => Some(re.replace_all(haystack, rep).into_owned()),
        Err(_) => None,
    }
}

/// `pattern` compiles and matches `haystack`.
pub open spec fn re_match(pattern: Seq<char>, haystack: Seq<char>) -> bool {
    regex_outcome(pattern, haystack) == Some(true)
}

pub(crate) fn matches_re(pattern: &str, haystack: &str) -> (r: bool)
    ensures
        r == re_match(pattern@, haystack@),
{
    match regex_is_match(pattern, haystack) {
        Some(b) => b,
        None => false,
    }
}

/// What `char::is_alphabetic` says of `c` (the Unicode `Alphabetic` property).
pub uninterp spec fn alphabetic(c: char) -> bool;

/// Relies on char::is_alphabetic: the Unicode `Alphabetic` property of the character.
#[verifier::external_body]
fn is_alphabetic(c: char) -> (r: bool)
    ensures
        r == alphabetic(c),
{
    c.is_alphabetic()
}

#[derive(Debug, Clone, Copy, PartialEq, Eq, Structural)]
pub enum ParagraphCategory {
    Body,
    Title,
    Toc,
    Reference,
    Auxiliary,
    Noise,
}

/// How a paragraph was classified; the confidence is in millionths.
#[derive(Debug, Clone)]
pub struct ParagraphClassification {
    pub index: i32,
    pub category: ParagraphCategory,
    pub confidence: i64,
    pub reason: String,
}

/// The trimmed text ends with `。！？.!?`.
pub open spec fn ends_sentence(s: Seq<char>) -> bool {
    let t = trim(s);
    t.len() > 0 && (t.last() == '。' || t.last() == '！' || t.last() == '？' || t.last() == '.' || t.last() == '!'
        || t.last() == '?')
}

fn ends_sentence_exec(s: &str) -> (r: bool)
    ensures
        r == ends_sentence(s@),
{
    let t = trimmed(s);
    let c = chars_of(t.as_str());
    if c.len() == 0 {
        return false;
    }
    let l = c[c.len() - 1];
    l == '。' || l == '！' || l == '？' || l == '.' || l == '!' || l == '?'
}

pub open spec fn is_ascii_digit(c: char) -> bool {
    '0' <= c && c <= '9'
}

/// A letter or an ideograph: alphabetic, or above `U+4E00`.
pub open spec fn is_letter(c: char) -> bool {
    alphabetic(c) || c > '\u{4e00}'
}

pub open spec fn digit_count(s: Seq<char>) -> nat
    decreases s.len(),
{
    if s.len() == 0 {
        0
    } else {
        digit_count(s.drop_last()) + if is_ascii_digit(s.last()) { 1nat } else { 0nat }
    }
}

pub open spec fn letter_count(s: Seq<char>) -> nat
    decreases s.len(),
{
    if s.len() == 0 {
        0
    } else {
        letter_count(s.drop_last()) + if is_letter(s.last()) { 1nat } else { 0nat }
    }
}

fn counts(s: &str) -> (r: (usize, usize, usize))
    ensures
        r.0 == s@.len(),
        r.1 == digit_count(s@),
        r.2 == letter_count(s@),
{
    let c = chars_of(s);
    let mut d: usize = 0;
    let mut l: usize = 0;
    let mut i: usize = 0;
    while i < c.len()
        invariant
            i <= c.len(),
            d == digit_count(c@.take(i as int)),
            l == letter_count(c@.take(i as int)),
            d <= i && l <= i,
        decreases c.len() - i,
    {
        assert(c@.take(i + 1).drop_last() =~= c@.take(i as int));
        let ch = c[i];
        if '0' <= ch && ch <= '9' {
            d += 1;
        }
        if is_alphabetic(ch) || ch > '\u{4e00}' {
            l += 1;
        }
        i += 1;
    }
    assert(c@.take(c.len() as int) =~= c@);
    (c.len(), d, l)
}

pub open spec fn max1(n: nat) -> int {
    if n >= 1 { n as int } else { 1 }
}

/// Captions, mostly numeric text, and symbol soup.
pub open spec fn noise(s: Seq<char>) -> bool {
    let t = trim(s);
    let total = t.len();
    let digits = digit_count(t);
    let letters = letter_count(t);
    ||| total == 0
    ||| re_match("^(图|表|Figure|Fig\\.|Table)\\s*\\d+"@, t)
    ||| 10 * digits > 6 * max1(total)
    ||| (total < 25 && !ends_sentence(t) && 10 * digits > 3 * max1(total))
    ||| (10 * letters < max1(total) && total < 50)
}

pub fn is_noise_pattern(s: &str) -> (r: bool)
    ensures
        r == noise(s@),
{
    let t = trimmed(s);
    let ts = t.as_str();
    let (total, digits, letters) = counts(ts);
    if total == 0 {
        return true;
    }
    if matches_re("^(图|表|Figure|Fig\\.|Table)\\s*\\d+", ts) {
        return true;
    }
    let m = if total >= 1 { total } else { 1 };
    if 10 * (digits as u128) > 6 * (m as u128) {
        return true;
    }
    if total < 25 && !ends_sentence_exec(ts) && 10 * (digits as u128) > 3 * (m as u128) {
        return true;
    }
    10 * (letters as u128) < (m as u128) && total < 50
}

/// A table-of-contents heading or entry.
pub open spec fn toc(s: Seq<char>) -> bool {
    let t = trim(s);
    let l = lower_of(t);
    ||| l == "目录"@
    ||| l == "contents"@
    ||| l == "table of contents"@
    ||| re_match("[\\.·\\-]{3,}\\s*\\d+\\s*$"@, t)
    ||| (re_match("^\\d+\\.?\\d*\\.?\\d*\\s+.+\\s+\\d+$"@, t) && t.len() < 80)
}

pub fn is_toc_pattern(s: &str) -> (r: bool)
    ensures
        r == toc(s@),
{
    let t = trimmed(s);
    let ts = t.as_str();
    let lower = lowercase(ts);
    let l = lower.as_str();
    if same_text(l, "目录") || same_text(l, "contents") || same_text(l, "table of contents") {
        return true;
    }
    if matches_re("[\\.·\\-]{3,}\\s*\\d+\\s*$", ts) {
        return true;
    }
    matches_re("^\\d+\\.?\\d*\\.?\\d*\\s+.+\\s+\\d+$", ts) && chars_of(ts).len() < 80
}

/// A bibliography heading or entry.
pub open spec fn reference(s: Seq<char>) -> bool {
    let t = trim(s);
    let l = lower_of(t);
    ||| l == "参考文献"@
    ||| l == "references"@
    ||| l == "bibliography"@
    ||| l == "works cited"@
    ||| re_match("^\\[\\d+\\]"@, t)
    ||| (re_match("^[A-Z\\x{4E00}-\\x{9FFF}][a-z\\x{4E00}-\\x{9FFF}]*[,，]?\\s*.+[\\(\\[]?\\d{4}[\\)\\]]?"@, t)
        && !contains_text(t, "http"@) && re_match("\\b(19|20)\\d{2}\\b"@, t) && (contains_text(t, "Vol."@)
        || contains_text(t, "pp."@) || contains_text(t, "doi:"@) || contains_text(t, "ISBN"@) || t.len() < 200))
}

pub fn is_reference_pattern(s: &str) -> (r: bool)
    ensures
        r == reference(s@),
{
    let t = trimmed(s);
    let ts = t.as_str();
    let lower = lowercase(ts);
    let l = lower.as_str();
    if same_text(l, "参考文献") || same_text(l, "references") || same_text(l, "bibliography") || same_text(l, "works cited") {
        return true;
    }
    if matches_re("^\\[\\d+\\]", ts) {
        return true;
    }
    if matches_re("^[A-Z\\x{4E00}-\\x{9FFF}][a-z\\x{4E00}-\\x{9FFF}]*[,，]?\\s*.+[\\(\\[]?\\d{4}[\\)\\]]?", ts)
        && !text_contains(ts, "http") {
        let has_year = matches_re("\\b(19|20)\\d{2}\\b", ts);
        let has_markers = text_contains(ts, "Vol.") || text_contains(ts, "pp.") || text_contains(ts, "doi:")
            || text_contains(ts, "ISBN");
        return has_year && (has_markers || chars_of(ts).len() < 200);
    }
    false
}

/// A heading: at most 60 characters without a final sentence mark, and either numbered
/// like a chapter or section, or at most 30 characters of which more than 70% are
/// letters.
pub open spec fn title(s: Seq<char>) -> bool {
    let t = trim(s);
    let n = t.len();
    &&& n <= 60
    &&& !ends_sentence(t)
    &&& (re_match("^(\\d+\\.?\\d*\\.?\\d*\\s|第[一二三四五六七八九十百千]+[章节部分条款]|Chapter\\s+\\d+|Section\\s+\\d+|Part\\s+\\d+)"@, t)
        || (n <= 30 && 10 * letter_count(t) > 7 * max1(n)))
}

pub fn is_title_pattern(s: &str) -> (r: bool)
    ensures
        r == title(s@),
{
    let t = trimmed(s);
    let ts = t.as_str();
    let (n, _digits, letters) = counts(ts);
    if n > 60 {
        return false;
    }
    if ends_sentence_exec(ts) {
        return false;
    }
    if matches_re(
        "^(\\d+\\.?\\d*\\.?\\d*\\s|第[一二三四五六七八九十百千]+[章节部分条款]|Chapter\\s+\\d+|Section\\s+\\d+|Part\\s+\\d+)",
        ts,
    ) {
        return true;
    }
    let m = if n >= 1 { n } else { 1 };
    n <= 30 && 10 * (letters as u128) > 7 * (m as u128)
}

/// The category the rules give a paragraph, in priority order, or `None` when they
/// leave it to the remote classifier.
pub open spec fn rule_category(s: Seq<char>) -> Option<ParagraphCategory> {
    let t = trim(s);
    if noise(t) {
        Some(ParagraphCategory::Noise)
    } else if toc(t) {
        Some(ParagraphCategory::Toc)
    } else if reference(t) {
        Some(ParagraphCategory::Reference)
    } else if title(t) {
        Some(ParagraphCategory::Title)
    } else if t.len() > 100 && ends_sentence(t) {
        Some(ParagraphCategory::Body)
    } else {
        None
    }
}

/// The confidence (millionths) and reason the rules give with a category.
pub open spec fn rule_note(c: ParagraphCategory) -> (i64, Seq<char>) {
    match c {
        ParagraphCategory::Noise => (900000, "noise_pattern"@),
        ParagraphCategory::Toc => (950000, "toc_pattern"@),
        ParagraphCategory::Reference => (900000, "reference_pattern"@),
        ParagraphCategory::Title => (850000, "title_pattern"@),
        _ => (900000, "body_pattern"@),
    }
}

fn rule_result(index: i32, category: ParagraphCategory) -> (r: ParagraphClassification)
    requires
        category != ParagraphCategory::Auxiliary,
    ensures
        r.index == index && r.category == category,
        (r.confidence, r.reason@) == rule_note(category),
{
    let (confidence, reason) = match category {
        ParagraphCategory::Noise => (900000, "noise_pattern"),
        ParagraphCategory::Toc => (950000, "toc_pattern"),
        ParagraphCategory::Reference => (900000, "reference_pattern"),
        ParagraphCategory::Title => (850000, "title_pattern"),
        _ => (900000, "body_pattern"),
    };
    ParagraphClassification { index, category, confidence, reason: reason.to_string() }
}

/// Classifies a paragraph by the rules; `None` when it stays uncertain.
pub fn classify_by_rules(text: &str, index: i32) -> (r: Option<ParagraphClassification>)
    ensures
        match rule_category(text@) {
            Some(c) => r is Some && r->0.index == index && r->0.category == c && (r->0.confidence, r->0.reason@)
                == rule_note(c),
            None => r is None,
        },
{
    let t = trimmed(text);
    let ts = t.as_str();
    if is_noise_pattern(ts) {
        return Some(rule_result(index, ParagraphCategory::Noise));
    }
    if is_toc_pattern(ts) {
        return Some(rule_result(index, ParagraphCategory::Toc));
    }
    if is_reference_pattern(ts) {
        return Some(rule_result(index, ParagraphCategory::Reference));
    }
    if is_title_pattern(ts) {
        return Some(rule_result(index, ParagraphCategory::Title));
    }
    if chars_of(ts).len() > 100 && ends_sentence_exec(ts) {
        return Some(rule_result(index, ParagraphCategory::Body));
    }
    None
}

/// The category named by a remote classifier's label; unknown labels count as body.
pub open spec fn category_of_label(l: Seq<char>) -> ParagraphCategory {
    if l == "title"@ {
        ParagraphCategory::Title
    } else if l == "toc"@ {
        ParagraphCategory::Toc
    } else if l == "reference"@ {
        ParagraphCategory::Reference
    } else if l == "auxiliary"@ {
        ParagraphCategory::Auxiliary
    } else {
        ParagraphCategory::Body
    }
}

pub fn category_from_label(label: &str) -> (r: ParagraphCategory)
    ensures
        r == category_of_label(label@),
{
    if same_text(label, "title") {
        ParagraphCategory::Title
    } else if same_text(label, "toc") {
        ParagraphCategory::Toc
    } else if same_text(label, "reference") {
        ParagraphCategory::Reference
    } else if same_text(label, "auxiliary") {
        ParagraphCategory::Auxiliary
    } else {
        ParagraphCategory::Body
    }
}

/// Index of the first classification of paragraph `index` in `cs[from..]`, or -1.
pub open spec fn first_for(cs: Seq<ParagraphClassification>, index: i32, from: int) -> int
    decreases cs.len() - from,
{
    if from < 0 || from >= cs.len() {
        -1
    } else if cs[from].index == index {
        from
    } else {
        first_for(cs, index, from + 1)
    }
}

fn find_for(cs: &[ParagraphClassification], index: i32) -> (r: Option<usize>)
    ensures
        match r {
            Some(k) => k < cs.len() && first_for(cs@, index, 0) == k,
            None => first_for(cs@, index, 0) == -1,
        },
{
    let mut k: usize = 0;
    while k < cs.len()
        invariant
            k <= cs.len(),
            first_for(cs@, index, 0) == first_for(cs@, index, k as int),
        decreases cs.len() - k,
    {
        if cs[k].index == index {
            return Some(k);
        }
        k += 1;
    }
    None
}

/// The final category of a paragraph: the rules' category when they decide; otherwise
/// the remote classifier's first answer for its index, body when it gave none, and body
/// for every uncertain paragraph when the remote call failed (`None`).
pub open spec fn final_category(b: TextBlock, llm: Option<Seq<ParagraphClassification>>) -> ParagraphCategory {
    match rule_category(b.text@) {
        Some(c) => c,
        None => match llm {
            Some(cs) => if first_for(cs, b.index, 0) >= 0 {
                cs[first_for(cs, b.index, 0)].category
            } else {
                ParagraphCategory::Body
            },
            None => ParagraphCategory::Body,
        },
    }
}

/// The confidence (millionths) and reason recorded for a paragraph: the rules' note when
/// they decide; otherwise the remote classifier's own for its first answer, 0.5 and
/// `llm_missing_default` when it gave none for the paragraph, and 0.5 and
/// `llm_fallback` when the remote call failed.
pub open spec fn final_note(b: TextBlock, llm: Option<Seq<ParagraphClassification>>) -> (i64, Seq<char>) {
    match rule_category(b.text@) {
        Some(c) => rule_note(c),
        None => match llm {
            Some(cs) => if first_for(cs, b.index, 0) >= 0 {
                (cs[first_for(cs, b.index, 0)].confidence, cs[first_for(cs, b.index, 0)].reason@)
            } else {
                (500000, "llm_missing_default"@)
            },
            None => (500000, "llm_fallback"@),
        },
    }
}

/// What the filter reports.
#[derive(Debug, Clone)]
pub struct FilterSummary {
    pub total_paragraphs: i32,
    pub body_count: i32,
    pub filtered_count: i32,
    pub filtered_by_rule: i32,
    pub filtered_by_llm: i32,
    pub classifications: Vec<ParagraphClassification>,
}

/// The blocks whose final category is body, in order.
pub open spec fn body_of(bs: Seq<TextBlock>, llm: Option<Seq<ParagraphClassification>>) -> Seq<TextBlock>
    decreases bs.len(),
{
    if bs.len() == 0 {
        Seq::empty()
    } else if final_category(bs.last(), llm) == ParagraphCategory::Body {
        body_of(bs.drop_last(), llm).push(bs.last())
    } else {
        body_of(bs.drop_last(), llm)
    }
}

/// Number of blocks that the rules remove.
pub open spec fn removed_by_rule(bs: Seq<TextBlock>) -> nat
    decreases bs.len(),
{
    if bs.len() == 0 {
        0
    } else {
        removed_by_rule(bs.drop_last()) + match rule_category(bs.last().text@) {
            Some(c) => if c != ParagraphCategory::Body { 1nat } else { 0nat },
            None => 0nat,
        }
    }
}

/// Number of uncertain blocks that the remote classifier removes.
pub open spec fn removed_by_llm(bs: Seq<TextBlock>, llm: Option<Seq<ParagraphClassification>>) -> nat
    decreases bs.len(),
{
    if bs.len() == 0 {
        0
    } else {
        removed_by_llm(bs.drop_last(), llm) + if rule_category(bs.last().text@) is None && final_category(bs.last(), llm)
            != ParagraphCategory::Body {
            1nat
        } else {
            0nat
        }
    }
}

/// The blocks that the rules leave uncertain, in order.
pub open spec fn uncertain_of(bs: Seq<TextBlock>) -> Seq<TextBlock>
    decreases bs.len(),
{
    if bs.len() == 0 {
        Seq::empty()
    } else if rule_category(bs.last().text@) is None {
        uncertain_of(bs.drop_last()).push(bs.last())
    } else {
        uncertain_of(bs.drop_last())
    }
}

/// The paragraphs that the rules leave uncertain, with their index and text, in order.
pub fn uncertain_paragraphs(blocks: &[TextBlock]) -> (r: Vec<(i32, String)>)
    ensures
        r.len() == uncertain_of(blocks@).len(),
        forall|k: int| 0 <= k < r.len() ==> (#[trigger] r@[k]).0 == uncertain_of(blocks@)[k].index && r@[k].1@
            == uncertain_of(blocks@)[k].text@,
{
    let mut out: Vec<(i32, String)> = Vec::new();
    let mut i: usize = 0;
    while i < blocks.len()
        invariant
            i <= blocks.len(),
            out.len() == uncertain_of(blocks@.take(i as int)).len(),
            forall|k: int| 0 <= k < out.len() ==> (#[trigger] out@[k]).0 == uncertain_of(blocks@.take(i as int))[k].index
                && out@[k].1@ == uncertain_of(blocks@.take(i as int))[k].text@,
        decreases blocks.len() - i,
    {
        let b = &blocks[i];
        proof {
            assert(blocks@.take(i + 1).drop_last() =~= blocks@.take(i as int));
            assert(blocks@.take(i + 1).last() == blocks@[i as int]);
        }
        if classify_by_rules(b.text.as_str(), b.index).is_none() {
            let ghost old_out = out@;
            out.push((b.index, b.text.clone()));
            proof {
                let u = uncertain_of(blocks@.take(i + 1));
                assert forall|k: int| 0 <= k < out.len() implies (#[trigger] out@[k]).0 == u[k].index && out@[k].1@ == u[k].text@ by {
                    if k < old_out.len() {
                        assert(out@[k] == old_out[k]);
                    }
                }
            }
        }
        i += 1;
    }
    proof {
        assert(blocks@.take(blocks.len() as int) =~= blocks@);
    }
    out
}

/// The blocks' indices increase along the list, as they do in document order.
pub open spec fn indices_increasing(bs: Seq<TextBlock>) -> bool {
    forall|k: int, m: int| 0 <= k < m < bs.len() ==> (#[trigger] bs[k]).index < (#[trigger] bs[m]).index
}

/// Keeps the body paragraphs, in order, and reports what was removed by which phase;
/// `llm` is the remote classifier's answer for the uncertain paragraphs, `None` when the
/// call failed. Each paragraph gets one classification, in order.
pub fn filter_paragraphs(blocks: &[TextBlock], llm: Option<&[ParagraphClassification]>) -> (r: (Vec<TextBlock>, FilterSummary))
    requires
        blocks.len() <= i32::MAX,
        indices_increasing(blocks@),
    ensures
        indices_increasing(r.0@),
        forall|k: int, m: int| 0 <= k < m < r.1.classifications@.len() ==> (#[trigger] r.1.classifications@[k]).index
            < (#[trigger] r.1.classifications@[m]).index,
        ({
            let l = match llm {
                Some(x) => Some(x@),
                None => None,
            };
            let body = body_of(blocks@, l);
            &&& r.0@.len() == body.len()
            &&& forall|k: int| 0 <= k < body.len() ==> (#[trigger] r.0@[k]).index == body[k].index && r.0@[k].start
                == body[k].start && r.0@[k].end == body[k].end && r.0@[k].text@ == body[k].text@
            &&& r.1.total_paragraphs == blocks.len()
            &&& r.1.body_count == body.len()
            &&& r.1.filtered_count == blocks.len() - body.len()
            &&& r.1.filtered_by_rule == removed_by_rule(blocks@)
            &&& r.1.filtered_by_llm == removed_by_llm(blocks@, l)
            &&& r.1.classifications@.len() == blocks.len()
            &&& forall|k: int| 0 <= k < blocks.len() ==> (#[trigger] r.1.classifications@[k]).index == blocks@[k].index
                && r.1.classifications@[k].category == final_category(blocks@[k], l)
                && (r.1.classifications@[k].confidence, r.1.classifications@[k].reason@) == final_note(blocks@[k], l)
        }),
{
    let ghost l = match llm {
        Some(x) => Some(x@),
        None => None,
    };
    let mut body: Vec<TextBlock> = Vec::new();
    let mut classes: Vec<ParagraphClassification> = Vec::new();
    let mut by_rule: i32 = 0;
    let mut by_llm: i32 = 0;
    let mut i: usize = 0;
    while i < blocks.len()
        invariant
            blocks.len() <= i32::MAX,
            l == match llm {
                Some(x) => Some(x@),
                None => None::<Seq<ParagraphClassification>>,
            },
            i <= blocks.len(),
            body@.len() == body_of(blocks@.take(i as int), l).len(),
            body@.len() <= i,
            forall|k: int| 0 <= k < body@.len() ==> (#[trigger] body@[k]).index == body_of(blocks@.take(i as int), l)[k].index
                && body@[k].start == body_of(blocks@.take(i as int), l)[k].start && body@[k].end == body_of(
                blocks@.take(i as int),
                l,
            )[k].end && body@[k].text@ == body_of(blocks@.take(i as int), l)[k].text@,
            by_rule == removed_by_rule(blocks@.take(i as int)),
            by_llm == removed_by_llm(blocks@.take(i as int), l),
            by_rule + by_llm <= i,
            classes@.len() == i,
            indices_increasing(blocks@),
            indices_increasing(body@),
            forall|k: int, j: int| 0 <= k < body@.len() && i <= j < blocks.len() ==> (#[trigger] body@[k]).index
                < (#[trigger] blocks@[j]).index,
            forall|k: int| 0 <= k < i ==> (#[trigger] classes@[k]).index == blocks@[k].index && classes@[k].category
                == final_category(blocks@[k], l) && (classes@[k].confidence, classes@[k].reason@) == final_note(blocks@[k], l),
        decreases blocks.len() - i,
    {
        let b = &blocks[i];
        proof {
            assert(blocks@.take(i + 1).drop_last() =~= blocks@.take(i as int));
            assert(blocks@.take(i + 1).last() == blocks@[i as int]);
        }
        let c = match classify_by_rules(b.text.as_str(), b.index) {
            Some(rc) => {
                if rc.category != ParagraphCategory::Body {
                    by_rule = by_rule + 1;
                }
                rc
            },
            None => {
                let found = match llm {
                    Some(cs) => match find_for(cs, b.index) {
                        Some(k) => Some(ParagraphClassification {
                            index: b.index,
                            category: cs[k].category,
                            confidence: cs[k].confidence,
                            reason: cs[k].reason.clone(),
                        }),
                        None => Some(ParagraphClassification {
                            index: b.index,
                            category: ParagraphCategory::Body,
                            confidence: 500000,
                            reason: "llm_missing_default".to_string(),
                        }),
                    },
                    None => None,
                };
                match found {
                    Some(fc) => {
                        if fc.category != ParagraphCategory::Body {
                            by_llm = by_llm + 1;
                        }
                        fc
                    },
                    None => ParagraphClassification {
                        index: b.index,
                        category: ParagraphCategory::Body,
                        confidence: 500000,
                        reason: "llm_fallback".to_string(),
                    },
                }
            },
        };
        assert(c.category == final_category(blocks@[i as int], l));
        assert((c.confidence, c.reason@) == final_note(blocks@[i as int], l));
        if c.category == ParagraphCategory::Body {
            let ghost old_body = body@;
            body.push(TextBlock {
                index: b.index,
                label: b.label.clone(),
                need_detect: b.need_detect,
                merge_with_prev: b.merge_with_prev,
                start: b.start,
                end: b.end,
                text: b.text.clone(),
                sentence_count: b.sentence_count,
            });
            proof {
                let bo = body_of(blocks@.take(i + 1), l);
                assert(bo == body_of(blocks@.take(i as int), l).push(blocks@[i as int]));
                assert forall|k: int| 0 <= k < body@.len() implies (#[trigger] body@[k]).index == bo[k].index
                    && body@[k].start == bo[k].start && body@[k].end == bo[k].end && body@[k].text@ == bo[k].text@ by {
                    if k < old_body.len() {
                        assert(body@[k] == old_body[k]);
                    }
                }
                assert forall|k: int, m: int| 0 <= k < m < body@.len() implies (#[trigger] body@[k]).index
                    < (#[trigger] body@[m]).index by {
                    if m < old_body.len() {
                        assert(body@[k] == old_body[k] && body@[m] == old_body[m]);
                    } else {
                        assert(body@[k] == old_body[k]);
                        assert(old_body[k].index < blocks@[i as int].index);
                    }
                }
                assert forall|k: int, j: int| 0 <= k < body@.len() && i + 1 <= j < blocks.len() implies (#[trigger] body@[k]).index
                    < (#[trigger] blocks@[j]).index by {
                    if k < old_body.len() {
                        assert(body@[k] == old_body[k]);
                    } else {
                        assert(blocks@[i as int].index < blocks@[j].index);
                    }
                }
            }
        }
        classes.push(c);
        i += 1;
    }
    proof {
        assert(blocks@.take(blocks.len() as int) =~= blocks@);
    }
    let n = blocks.len() as i32;
    let nb = body.len() as i32;
    let summary = FilterSummary {
        total_paragraphs: n,
        body_count: nb,
        filtered_count: n - nb,
        filtered_by_rule: by_rule,
        filtered_by_llm: by_llm,
        classifications: classes,
    };
    (body, summary)
}

} // verus!
