//! The academic anchor: how much a segment looks like academic writing (citations,
//! section heads, references to figures, tables or equations).
use vstd::prelude::*;
use crate::filter::{re_match, matches_re};
use crate::providers::{contains_text, text_contains};
use crate::sentences::{trim, trimmed};

verus! {

/// The strength of the academic anchor of a text, in tenths: 4 for a citation
/// (`[n]`, `(Author, YYYY)`, `et al.` or a DOI), 3 for a section head at the start of a
/// line, 3 for a reference to a figure, table or equation; at most 10, and 0 for blank
/// text.
pub open spec fn anchor_tenths(text: Seq<char>) -> int {
    let t = trim(text);
    if t.len() == 0 {
        0
    } else {
        let c = if re_match("(\\[[0-9]{1,3}\\])|(\\([A-Za-z][A-Za-z\\s\\.-]+,\\s*\\d{4}[a-z]?\\))"@, t) || contains_text(t, "et al."@)
            || contains_text(t, "DOI"@) || contains_text(t, "doi"@) { 4int } else { 0int };
        let s = if re_match("(?m)^(摘要|引言|绪论|方法|结果|讨论|结论|致谢|参考文献|Abstract|Introduction|Methods?|Results?|Discussion|Conclusion|Acknowledg(e)?ments?|References?)"@, t) { 3int } else { 0int };
        let f = if re_match("(?i)(图\\s?\\d+|表\\s?\\d+|figure\\s?\\d+|table\\s?\\d+|equation\\s?\\(?\\d+\\)?)"@, t) { 3int } else { 0int };
        if c + s + f > 10 { 10 } else { c + s + f }
    }
}

pub fn academic_anchor_strength(text: &str) -> (r: u8)
    ensures
        r == anchor_tenths(text@),
{
    let t = trimmed(text);
    let ts = t.as_str();
    if ts.is_empty() {
        return 0;
    }
    let c: u8 = if matches_re("(\\[[0-9]{1,3}\\])|(\\([A-Za-z][A-Za-z\\s\\.-]+,\\s*\\d{4}[a-z]?\\))", ts) || text_contains(ts, "et al.")
        || text_contains(ts, "DOI") || text_contains(ts, "doi") { 4 } else { 0 };
    let s: u8 = if matches_re("(?m)^(摘要|引言|绪论|方法|结果|讨论|结论|致谢|参考文献|Abstract|Introduction|Methods?|Results?|Discussion|Conclusion|Acknowledg(e)?ments?|References?)", ts) { 3 } else { 0 };
    let f: u8 = if matches_re("(?i)(图\\s?\\d+|表\\s?\\d+|figure\\s?\\d+|table\\s?\\d+|equation\\s?\\(?\\d+\\)?)", ts) { 3 } else { 0 };
    if c + s + f > 10 { 10 } else { c + s + f }
}

} // verus!
