//! Language tags and a rough guess of a text's language.
use vstd::prelude::*;
use crate::boundaries::ci_eq;
use crate::sentences::{is_ws, is_whitespace, trim, trimmed};
use crate::text::chars_of;

verus! {

/// The tag, without surrounding whitespace, starts with `zh`, `ja` or `ko` in any case.
pub open spec fn cjk_tag(language: Seq<char>) -> bool {
    let t = trim(language);
    t.len() >= 2 && ((ci_eq(t[0], 'z') && ci_eq(t[1], 'h')) || (ci_eq(t[0], 'j') && ci_eq(t[1], 'a')) || (ci_eq(
        t[0],
        'k',
    ) && ci_eq(t[1], 'o')))
}

fn ci_eq_exec(c: char, a: char) -> (r: bool)
    requires
        'a' <= a <= 'z',
    ensures
        r == ci_eq(c, a),
{
    c == a || (c as u32) == (a as u32) - 32
}

/// Whether a language tag names Chinese, Japanese or Korean.
pub fn is_cjk_language(language: &str) -> (r: bool)
    ensures
        r == cjk_tag(language@),
{
    let t = trimmed(language);
    let c = chars_of(t.as_str());
    if c.len() < 2 {
        return false;
    }
    (ci_eq_exec(c[0], 'z') && ci_eq_exec(c[1], 'h')) || (ci_eq_exec(c[0], 'j') && ci_eq_exec(c[1], 'a')) || (
    ci_eq_exec(c[0], 'k') && ci_eq_exec(c[1], 'o'))
}

pub open spec fn is_han(c: char) -> bool {
    '\u{4e00}' <= c && c <= '\u{9fff}'
}

/// Number of ideographs (`U+4E00..=U+9FFF`) in `s`.
pub open spec fn han_count(s: Seq<char>) -> nat
    decreases s.len(),
{
    if s.len() == 0 {
        0
    } else {
        han_count(s.drop_last()) + if is_han(s.last()) {
            1nat
        } else {
            0nat
        }
    }
}

/// Number of characters of `s` that are not whitespace.
pub open spec fn visible_count(s: Seq<char>) -> nat
    decreases s.len(),
{
    if s.len() == 0 {
        0
    } else {
        visible_count(s.drop_last()) + if is_ws(s.last()) {
            0nat
        } else {
            1nat
        }
    }
}

/// `zh` when ideographs make up more than 30% of the characters that are not
/// whitespace, `en` otherwise.
pub open spec fn guessed_language(s: Seq<char>) -> Seq<char> {
    if visible_count(s) > 0 && 10 * han_count(s) > 3 * visible_count(s) {
        "zh"@
    } else {
        "en"@
    }
}

pub fn detect_language_simple(text: &str) -> (r: String)
    ensures
        r@ == guessed_language(text@),
{
    let chars = chars_of(text);
    let mut han: usize = 0;
    let mut visible: usize = 0;
    let mut i: usize = 0;
    while i < chars.len()
        invariant
            i <= chars.len(),
            han == han_count(chars@.take(i as int)),
            visible == visible_count(chars@.take(i as int)),
            han <= i && visible <= i,
        decreases chars.len() - i,
    {
        assert(chars@.take(i + 1).drop_last() =~= chars@.take(i as int));
        let c = chars[i];
        if '\u{4e00}' <= c && c <= '\u{9fff}' {
            han += 1;
        }
        if !is_whitespace(c) {
            visible += 1;
        }
        i += 1;
    }
    assert(chars@.take(chars.len() as int) =~= chars@);
    if visible > 0 && (han as u128) * 10 > (visible as u128) * 3 {
        "zh".to_string()
    } else {
        "en".to_string()
    }
}

/// An ASCII letter, digit or underscore.
pub open spec fn is_word_char(c: char) -> bool {
    ('a' <= c && c <= 'z') || ('A' <= c && c <= 'Z') || ('0' <= c && c <= '9') || c == '_'
}

/// Number of tokens of `s`: maximal runs of word characters, and single ideographs.
pub open spec fn token_count(s: Seq<char>) -> nat
    decreases s.len(),
{
    if s.len() == 0 {
        0
    } else {
        token_count(s.drop_last()) + if is_han(s.last()) || (is_word_char(s.last()) && !(s.len() > 1 && is_word_char(
            s[s.len() - 2],
        ))) {
            1nat
        } else {
            0nat
        }
    }
}

/// `token_count`, at least 1 and at most `i32::MAX`.
pub open spec fn estimated_tokens(s: Seq<char>) -> int {
    if token_count(s) >= 1 {
        if token_count(s) <= i32::MAX { token_count(s) as int } else { i32::MAX as int }
    } else {
        1
    }
}

/// A rough token count: words plus ideographs, at least 1.
pub fn estimate_tokens(text: &str) -> (r: i32)
    ensures
        r == estimated_tokens(text@),
{
    let c = chars_of(text);
    let mut n: usize = 0;
    let mut i: usize = 0;
    while i < c.len()
        invariant
            i <= c.len(),
            n == token_count(c@.take(i as int)),
            n <= i,
        decreases c.len() - i,
    {
        let ch = c[i];
        proof {
            assert(c@.take(i + 1).drop_last() =~= c@.take(i as int));
            assert(c@.take(i + 1).last() == ch);
            if i > 0 {
                assert(c@.take(i + 1)[i - 1] == c@[i - 1]);
            }
        }
        let word = ('a' <= ch && ch <= 'z') || ('A' <= ch && ch <= 'Z') || ('0' <= ch && ch <= '9') || ch == '_';
        let prev_word = i > 0 && (('a' <= c[i - 1] && c[i - 1] <= 'z') || ('A' <= c[i - 1] && c[i - 1] <= 'Z') || (
        '0' <= c[i - 1] && c[i - 1] <= '9') || c[i - 1] == '_');
        if ('\u{4e00}' <= ch && ch <= '\u{9fff}') || (word && !prev_word) {
            n += 1;
        }
        i += 1;
    }
    assert(c@.take(c.len() as int) =~= c@);
    if n == 0 {
        1
    } else if n > i32::MAX as usize {
        i32::MAX
    } else {
        n as i32
    }
}

} // verus!
