//! Small judgments on sentence text: whether a split between two sentences looks
//! doubtful, whether a text ends like a sentence, and where a JSON object sits in a
//! model's reply.
use vstd::prelude::*;
use crate::sentences::{is_ws, is_whitespace, trim, trim_end, trimmed, quote_count, lemma_trim_end};
use crate::text::{chars_of, string_of};

verus! {

pub open spec fn is_end_punct(c: char) -> bool {
    c == '。' || c == '！' || c == '？' || c == '.' || c == '!' || c == '?' || c == '…'
}

/// The text, without trailing whitespace, ends with a sentence punctuation mark.
pub open spec fn ends_with_punct(s: Seq<char>) -> bool {
    trim_end(s).len() > 0 && is_end_punct(trim_end(s).last())
}

/// Whether `s`, ignoring trailing whitespace, ends with `。！？.!?…`.
pub fn ends_with_sentence_punct(s: &str) -> (r: bool)
    ensures
        r == ends_with_punct(s@),
{
    let chars = chars_of(s);
    let mut b = chars.len();
    while b > 0 && is_whitespace(chars[b - 1])
        invariant
            b <= chars.len(),
            forall|k: int| b <= k < chars.len() ==> is_ws(#[trigger] chars@[k]),
        decreases b,
    {
        b -= 1;
    }
    proof {
        lemma_trim_end(chars@, 0, b as int, chars.len() as int);
        assert(chars@.subrange(0, chars.len() as int) =~= chars@);
    }
    if b == 0 {
        return false;
    }
    let c = chars[b - 1];
    c == '。' || c == '！' || c == '？' || c == '.' || c == '!' || c == '?' || c == '…'
}

/// Number of times `c` occurs in `s`.
pub open spec fn count_char(s: Seq<char>, c: char) -> nat
    decreases s.len(),
{
    if s.len() == 0 {
        0
    } else {
        count_char(s.drop_last(), c) + if s.last() == c {
            1nat
        } else {
            0nat
        }
    }
}

/// `c` equals `a`, or is the uppercase form of the ASCII lowercase letter `a`.
pub open spec fn ci_eq(c: char, a: char) -> bool {
    c == a || ('a' <= a && a <= 'z' && c as u32 == a as u32 - 32)
}

/// `s` ends with `suffix`, ASCII letters compared without case.
pub open spec fn ends_with_ci(s: Seq<char>, suffix: Seq<char>) -> bool {
    s.len() >= suffix.len() && forall|i: int| 0 <= i < suffix.len() ==> ci_eq(#[trigger] s[s.len() - suffix.len() + i], suffix[i])
}

/// `s` ends with a common dotted abbreviation.
pub open spec fn ends_with_abbreviation(s: Seq<char>) -> bool {
    ends_with_ci(s, "e.g."@) || ends_with_ci(s, "i.e."@) || ends_with_ci(s, "etc."@) || ends_with_ci(s, "vs."@)
        || ends_with_ci(s, "mr."@) || ends_with_ci(s, "mrs."@) || ends_with_ci(s, "ms."@) || ends_with_ci(s, "dr."@)
        || ends_with_ci(s, "prof."@) || ends_with_ci(s, "fig."@) || ends_with_ci(s, "eq."@) || ends_with_ci(s, "no."@)
        || ends_with_ci(s, "inc."@) || ends_with_ci(s, "ltd."@)
}

pub open spec fn is_upper(c: char) -> bool {
    'A' <= c && c <= 'Z'
}

pub open spec fn is_lower(c: char) -> bool {
    'a' <= c && c <= 'z'
}

/// A split between the sentences `left` and `right` is doubtful: the left one does
/// not end like a sentence, either one has an odd number of quote marks, the left one
/// leaves a parenthesis open, or it ends with a period that may belong to an
/// abbreviation or an initial, or precede a lowercase continuation.
pub open spec fn ambiguous(left: Seq<char>, right: Seq<char>) -> bool {
    let l = trim(left);
    let r = trim(right);
    if l.len() == 0 || r.len() == 0 {
        false
    } else if !ends_with_punct(l) {
        true
    } else if quote_count(l) % 2 == 1 || quote_count(r) % 2 == 1 {
        true
    } else if count_char(l, '(') > count_char(l, ')') {
        true
    } else if l.last() == '.' {
        ends_with_abbreviation(l) || (l.len() >= 2 && is_upper(l[l.len() - 2])) || is_lower(r[0])
    } else {
        false
    }
}

fn counts(chars: &Vec<char>) -> (r: (usize, usize, usize))
    ensures
        r.0 == quote_count(chars@),
        r.1 == count_char(chars@, '('),
        r.2 == count_char(chars@, ')'),
{
    let mut q: usize = 0;
    let mut o: usize = 0;
    let mut c: usize = 0;
    let mut i: usize = 0;
    while i < chars.len()
        invariant
            i <= chars.len(),
            q == quote_count(chars@.take(i as int)),
            o == count_char(chars@.take(i as int), '('),
            c == count_char(chars@.take(i as int), ')'),
            q <= i && o <= i && c <= i,
        decreases chars.len() - i,
    {
        assert(chars@.take(i + 1).drop_last() =~= chars@.take(i as int));
        let ch = chars[i];
        if ch == '"' || ch == '\u{201c}' || ch == '\u{201d}' || ch == '\'' || ch == '\u{2018}' || ch == '\u{2019}' {
            q += 1;
        }
        if ch == '(' {
            o += 1;
        }
        if ch == ')' {
            c += 1;
        }
        i += 1;
    }
    assert(chars@.take(chars.len() as int) =~= chars@);
    (q, o, c)
}

fn ends_with_ci_exec(chars: &Vec<char>, suffix: &str) -> (r: bool)
    ensures
        r == ends_with_ci(chars@, suffix@),
{
    let sc = chars_of(suffix);
    if sc.len() > chars.len() {
        return false;
    }
    let base = chars.len() - sc.len();
    let mut i: usize = 0;
    while i < sc.len()
        invariant
            sc@ == suffix@,
            base == chars.len() - sc.len(),
            i <= sc.len(),
            forall|j: int| 0 <= j < i ==> ci_eq(#[trigger] chars@[base + j], sc@[j]),
        decreases sc.len() - i,
    {
        let c = chars[base + i];
        let a = sc[i];
        let same = c == a || ('a' <= a && a <= 'z' && (c as u32) == (a as u32) - 32);
        if !same {
            assert(!ci_eq(chars@[base + i as int], sc@[i as int]));
            return false;
        }
        i += 1;
    }
    true
}

/// Whether the boundary between `left` and `right` should be checked before it is
/// trusted; see `ambiguous`.
pub fn is_ambiguous_boundary(left: &str, right: &str) -> (r: bool)
    ensures
        r == ambiguous(left@, right@),
{
    let l = trimmed(left);
    let r = trimmed(right);
    let lc = chars_of(l.as_str());
    let rc = chars_of(r.as_str());
    if lc.len() == 0 || rc.len() == 0 {
        return false;
    }
    if !ends_with_sentence_punct(l.as_str()) {
        return true;
    }
    let (lq, lo, lcl) = counts(&lc);
    let (rq, _ro, _rcl) = counts(&rc);
    if lq % 2 == 1 || rq % 2 == 1 {
        return true;
    }
    if lo > lcl {
        return true;
    }
    if lc[lc.len() - 1] == '.' {
        if ends_with_ci_exec(&lc, "e.g.") || ends_with_ci_exec(&lc, "i.e.") || ends_with_ci_exec(&lc, "etc.")
            || ends_with_ci_exec(&lc, "vs.") || ends_with_ci_exec(&lc, "mr.") || ends_with_ci_exec(&lc, "mrs.")
            || ends_with_ci_exec(&lc, "ms.") || ends_with_ci_exec(&lc, "dr.") || ends_with_ci_exec(&lc, "prof.")
            || ends_with_ci_exec(&lc, "fig.") || ends_with_ci_exec(&lc, "eq.") || ends_with_ci_exec(&lc, "no.")
            || ends_with_ci_exec(&lc, "inc.") || ends_with_ci_exec(&lc, "ltd.") {
            return true;
        }
        if lc.len() >= 2 && 'A' <= lc[lc.len() - 2] && lc[lc.len() - 2] <= 'Z' {
            return true;
        }
        return 'a' <= rc[0] && rc[0] <= 'z';
    }
    false
}

pub open spec fn is_final_punct(c: char) -> bool {
    c == '。' || c == '.' || c == '！' || c == '!' || c == '？' || c == '?'
}

/// `s` holds one of `。.！!？?`.
pub open spec fn has_final_punct(s: Seq<char>) -> bool {
    exists|i: int| 0 <= i < s.len() && is_final_punct(#[trigger] s[i])
}

fn has_final_punct_chars(chars: &Vec<char>) -> (r: bool)
    ensures
        r == has_final_punct(chars@),
{
    let mut i: usize = 0;
    while i < chars.len()
        invariant
            i <= chars.len(),
            forall|j: int| 0 <= j < i ==> !is_final_punct(#[trigger] chars@[j]),
        decreases chars.len() - i,
    {
        let c = chars[i];
        if c == '。' || c == '.' || c == '！' || c == '!' || c == '？' || c == '?' {
            assert(is_final_punct(chars@[i as int]));
            return true;
        }
        i += 1;
    }
    false
}

/// Whether `s` holds any of `。.！!？?`.
pub fn has_sentence_end_punctuation(s: &str) -> (r: bool)
    ensures
        r == has_final_punct(s@),
{
    has_final_punct_chars(&chars_of(s))
}

/// Number of characters of `s` that are not whitespace.
pub open spec fn non_ws_count(s: Seq<char>) -> nat
    decreases s.len(),
{
    if s.len() == 0 {
        0
    } else {
        non_ws_count(s.drop_last()) + if is_ws(s.last()) {
            0nat
        } else {
            1nat
        }
    }
}

/// A paragraph that reads like a title: blank, or under 20 non-whitespace characters
/// with no sentence punctuation.
pub open spec fn title_like(s: Seq<char>) -> bool {
    let t = trim(s);
    non_ws_count(t) == 0 || (non_ws_count(t) < 20 && !has_final_punct(t))
}

pub fn is_short_title_like(s: &str) -> (r: bool)
    ensures
        r == title_like(s@),
{
    let t = trimmed(s);
    let chars = chars_of(t.as_str());
    let mut n: usize = 0;
    let mut i: usize = 0;
    while i < chars.len()
        invariant
            i <= chars.len(),
            n == non_ws_count(chars@.take(i as int)),
            n <= i,
        decreases chars.len() - i,
    {
        assert(chars@.take(i + 1).drop_last() =~= chars@.take(i as int));
        if !is_whitespace(chars[i]) {
            n += 1;
        }
        i += 1;
    }
    assert(chars@.take(chars.len() as int) =~= chars@);
    if n == 0 {
        return true;
    }
    if n >= 20 {
        return false;
    }
    !has_final_punct_chars(&chars)
}

/// Where a scan of JSON text stands: the nesting depth of braces, whether it is inside
/// a string, and whether the previous character inside a string was a backslash.
pub struct ScanState {
    pub depth: int,
    pub in_str: bool,
    pub escaped: bool,
}

/// The state after reading `c`: braces count only outside strings, and a quote that a
/// backslash escapes does not end a string.
pub open spec fn scan_step(st: ScanState, c: char) -> ScanState {
    if st.in_str {
        if st.escaped {
            ScanState { depth: st.depth, in_str: true, escaped: false }
        } else if c == '\\' {
            ScanState { depth: st.depth, in_str: true, escaped: true }
        } else if c == '"' {
            ScanState { depth: st.depth, in_str: false, escaped: false }
        } else {
            st
        }
    } else if c == '"' {
        ScanState { depth: st.depth, in_str: true, escaped: false }
    } else if c == '{' {
        ScanState { depth: st.depth + 1, in_str: false, escaped: false }
    } else if c == '}' {
        ScanState { depth: st.depth - 1, in_str: false, escaped: false }
    } else {
        st
    }
}

/// The state after reading `s[a..k]` from the start state.
pub open spec fn scan(s: Seq<char>, a: int, k: int) -> ScanState
    decreases k - a,
{
    if k <= a {
        ScanState { depth: 0, in_str: false, escaped: false }
    } else {
        scan_step(scan(s, a, k - 1), s[k - 1])
    }
}

/// The first end `k` (from `k` on, at most `s.len()`) at which the scan started at `a`
/// is back at depth 0, or -1.
pub open spec fn closing_from(s: Seq<char>, a: int, k: int) -> int
    decreases s.len() + 1 - k,
{
    if k > s.len() || k < 0 {
        -1
    } else if k > a && scan(s, a, k).depth == 0 {
        k
    } else {
        closing_from(s, a, k + 1)
    }
}

/// Index of the first `{` of `s`, or -1.
pub open spec fn first_brace_from(s: Seq<char>, i: int) -> int
    decreases s.len() - i,
{
    if i < 0 || i >= s.len() {
        -1
    } else if s[i] == '{' {
        i
    } else {
        first_brace_from(s, i + 1)
    }
}

/// The first top-level JSON object of a model's reply: from its first `{` to the brace
/// that closes it (braces inside strings do not count); `None` when the reply holds no
/// `{` or the object is never closed.
pub open spec fn json_object(content: Seq<char>) -> Option<Seq<char>> {
    let a = first_brace_from(content, 0);
    if a < 0 {
        None
    } else {
        let e = closing_from(content, a, a + 1);
        if e < 0 {
            None
        } else {
            Some(content.subrange(a, e))
        }
    }
}

/// Cuts the first JSON object out of a model's reply that may carry prose around it;
/// `None` when there is none.
pub fn extract_json(content: &str) -> (r: Option<String>)
    ensures
        match r {
            Some(x) => json_object(content@) == Some(x@),
            None => json_object(content@) is None,
        },
{
    let chars = chars_of(content);
    let n = chars.len();
    let mut a: usize = 0;
    while a < n && chars[a] != '{'
        invariant
            chars@ == content@,
            n == chars.len(),
            a <= n,
            first_brace_from(chars@, 0) == first_brace_from(chars@, a as int),
        decreases n - a,
    {
        a += 1;
    }
    if a >= n {
        return None;
    }
    assert(first_brace_from(chars@, a as int) == a);
    let mut depth: i128 = 0;
    let mut in_str = false;
    let mut escaped = false;
    let mut k: usize = a;
    while k < n
        invariant
            chars@ == content@,
            n == chars.len(),
            a < n,
            chars@[a as int] == '{',
            first_brace_from(chars@, 0) == a,
            a <= k <= n,
            scan(chars@, a as int, k as int) == (ScanState { depth: depth as int, in_str, escaped }),
            -(k - a) <= depth <= k - a,
            closing_from(chars@, a as int, a + 1) == closing_from(chars@, a as int, if k > a { k as int } else { a + 1 }),
            k > a ==> depth != 0,
            !in_str ==> !escaped,
        decreases n - k,
    {
        let c = chars[k];
        let ghost st0 = scan(chars@, a as int, k as int);
        assert(scan(chars@, a as int, k + 1) == scan_step(st0, c));
        if in_str {
            if escaped {
                escaped = false;
            } else if c == '\\' {
                escaped = true;
            } else if c == '"' {
                in_str = false;
            }
        } else if c == '"' {
            in_str = true;
            escaped = false;
        } else if c == '{' {
            depth = depth + 1;
        } else if c == '}' {
            depth = depth - 1;
        }
        k += 1;
        if depth == 0 {
            assert(closing_from(chars@, a as int, k as int) == k);
            return Some(string_of(&chars, a, k));
        }
        assert(closing_from(chars@, a as int, k as int) == closing_from(chars@, a as int, k + 1));
    }
    assert(closing_from(chars@, a as int, n + 1) == -1);
    None
}

} // verus!
