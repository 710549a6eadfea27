//! Local sentence splitting with byte-exact offsets, and packing of sentences
//! into detection blocks.
use vstd::prelude::*;
use crate::text::{byte_offset, chars_of, char_width, fits_i32, string_of, lemma_offset_step, lemma_offset_zero, lemma_offset_bounded, lemma_offset_full};

verus! {

/// Unicode `White_Space`, as `char::is_whitespace` and `str::trim` use it.
pub open spec fn is_ws(c: char) -> bool {
    ('\u{9}' <= c && c <= '\u{d}') || c == ' ' || c == '\u{85}' || c == '\u{a0}' || c == '\u{1680}'
        || ('\u{2000}' <= c && c <= '\u{200a}') || c == '\u{2028}' || c == '\u{2029}' || c
        == '\u{202f}' || c == '\u{205f}' || c == '\u{3000}'
}

pub fn is_whitespace(c: char) -> (r: bool)
    ensures
        r == is_ws(c),
{
    ('\u{9}' <= c && c <= '\u{d}') || c == ' ' || c == '\u{85}' || c == '\u{a0}' || c == '\u{1680}'
        || ('\u{2000}' <= c && c <= '\u{200a}') || c == '\u{2028}' || c == '\u{2029}' || c
        == '\u{202f}' || c == '\u{205f}' || c == '\u{3000}'
}

/// `s` without its leading whitespace.
pub open spec fn trim_start(s: Seq<char>) -> Seq<char>
    decreases s.len(),
{
    if s.len() > 0 && is_ws(s[0]) {
        trim_start(s.drop_first())
    } else {
        s
    }
}

/// `s` without its trailing whitespace.
pub open spec fn trim_end(s: Seq<char>) -> Seq<char>
    decreases s.len(),
{
    if s.len() > 0 && is_ws(s.last()) {
        trim_end(s.drop_last())
    } else {
        s
    }
}

/// `s` without leading and trailing whitespace.
pub open spec fn trim(s: Seq<char>) -> Seq<char> {
    trim_end(trim_start(s))
}

pub proof fn lemma_trim_start(s: Seq<char>, lo: int, a: int, hi: int)
    requires
        0 <= lo <= a <= hi <= s.len(),
        forall|k: int| lo <= k < a ==> is_ws(#[trigger] s[k]),
        a == hi || !is_ws(s[a]),
    ensures
        trim_start(s.subrange(lo, hi)) == s.subrange(a, hi),
    decreases a - lo,
{
    if lo < a {
        assert(s.subrange(lo, hi).drop_first() =~= s.subrange(lo + 1, hi));
        lemma_trim_start(s, lo + 1, a, hi);
    }
}

pub proof fn lemma_trim_end(s: Seq<char>, a: int, b: int, hi: int)
    requires
        0 <= a <= b <= hi <= s.len(),
        forall|k: int| b <= k < hi ==> is_ws(#[trigger] s[k]),
        a == b || !is_ws(s[b - 1]),
    ensures
        trim_end(s.subrange(a, hi)) == s.subrange(a, b),
    decreases hi - b,
{
    if b < hi {
        assert(s.subrange(a, hi).drop_last() =~= s.subrange(a, hi - 1));
        lemma_trim_end(s, a, b, hi - 1);
    }
}

/// The part of `chars[lo..hi]` that `trim` keeps, as a range of indices.
pub fn trim_range(chars: &Vec<char>, lo: usize, hi: usize) -> (r: (usize, usize))
    requires
        lo <= hi <= chars.len(),
    ensures
        lo <= r.0 <= r.1 <= hi,
        chars@.subrange(r.0 as int, r.1 as int) == trim(chars@.subrange(lo as int, hi as int)),
        r.0 == r.1 <==> forall|k: int| lo <= k < hi ==> is_ws(#[trigger] chars@[k]),
{
    let mut a = lo;
    while a < hi && is_whitespace(chars[a])
        invariant
            lo <= a <= hi <= chars.len(),
            forall|k: int| lo <= k < a ==> is_ws(#[trigger] chars@[k]),
        decreases hi - a,
    {
        a += 1;
    }
    let mut b = hi;
    while b > a && is_whitespace(chars[b - 1])
        invariant
            lo <= a <= b <= hi <= chars.len(),
            forall|k: int| b <= k < hi ==> is_ws(#[trigger] chars@[k]),
        decreases b - a,
    {
        b -= 1;
    }
    proof {
        lemma_trim_start(chars@, lo as int, a as int, hi as int);
        lemma_trim_end(chars@, a as int, b as int, hi as int);
        assert(chars@.subrange(a as int, hi as int).subrange(0, b - a) =~= chars@.subrange(
            a as int,
            b as int,
        ));
        lemma_trim_end(chars@.subrange(a as int, hi as int), 0, (b - a) as int, (hi - a) as int);
        assert(chars@.subrange(a as int, hi as int).subrange(0, hi - a) =~= chars@.subrange(
            a as int,
            hi as int,
        ));
    }
    (a, b)
}

/// `s` without leading and trailing whitespace.
pub fn trimmed(s: &str) -> (r: String)
    ensures
        r@ == trim(s@),
{
    let chars = chars_of(s);
    let (a, b) = trim_range(&chars, 0, chars.len());
    assert(chars@.subrange(0, chars@.len() as int) =~= chars@);
    string_of(&chars, a, b)
}

/// A sentence found by the local splitter: its trimmed text and the byte range
/// `[start, end)` that it was cut from, trailing whitespace included.
#[derive(Debug, Clone)]
pub struct SentenceOffset {
    pub text: String,
    pub start: i32,
    pub end: i32,
}

pub open spec fn is_quote_char(c: char) -> bool {
    c == '"' || c == '\u{201c}' || c == '\u{201d}' || c == '\'' || c == '\u{2018}' || c
        == '\u{2019}'
}

pub open spec fn is_terminator(c: char) -> bool {
    c == '。' || c == '！' || c == '？' || c == '.' || c == '!' || c == '?'
}


pub open spec fn is_digit(c: char) -> bool {
    '0' <= c && c <= '9'
}

/// Number of quote characters in `s`.
pub open spec fn quote_count(s: Seq<char>) -> nat
    decreases s.len(),
{
    if s.len() == 0 {
        0
    } else {
        quote_count(s.drop_last()) + if is_quote_char(s.last()) {
            1nat
        } else {
            0nat
        }
    }
}

/// A period between two ASCII digits.
pub open spec fn is_decimal_point(s: Seq<char>, i: int) -> bool {
    s[i] == '.' && 0 < i && i + 1 < s.len() && is_digit(s[i - 1]) && is_digit(s[i + 1])
}

/// The character at `i` ends a sentence: a terminator outside quotes that is not a
/// decimal point.
pub open spec fn is_sentence_end(s: Seq<char>, i: int) -> bool {
    &&& 0 <= i < s.len()
    &&& is_terminator(s[i])
    &&& quote_count(s.take(i + 1)) % 2 == 0
    &&& !is_decimal_point(s, i)
}

/// The first index from `j` on that does not hold whitespace.
pub open spec fn skip_ws(s: Seq<char>, j: int) -> int
    decreases s.len() - j,
{
    if 0 <= j < s.len() && is_ws(s[j]) {
        skip_ws(s, j + 1)
    } else {
        j
    }
}

/// `r` is the list of sentences of `s`, cut at the character indices `cuts`: the pieces
/// are contiguous from the start of the text; each one ends right after the whitespace that
/// follow its sentence end, and holds no other sentence end; the last one may instead run
/// to the end of the text; what follows the last one is whitespace.
#[verifier::opaque]
pub open spec fn sentence_cuts(s: Seq<char>, r: Seq<SentenceOffset>, cuts: Seq<int>) -> bool {
    &&& cuts.len() == r.len() + 1
    &&& cuts[0] == 0
    &&& forall|k: int|
        0 <= k < r.len() ==> {
            &&& 0 <= cuts[k] < cuts[k + 1] <= s.len()
            &&& (#[trigger] r[k]).start == byte_offset(s, cuts[k])
            &&& r[k].end == byte_offset(s, cuts[k + 1])
            &&& r[k].text@ == trim(s.subrange(cuts[k], cuts[k + 1]))
            &&& r[k].text@.len() > 0
            &&& cuts[k + 1] < s.len() ==> exists|i: int|
                cuts[k] <= i < cuts[k + 1] && #[trigger] is_sentence_end(s, i) && skip_ws(s, i + 1)
                    == cuts[k + 1]
        }
    &&& forall|k: int, i: int|
        0 <= k < r.len() && cuts[k] <= i < cuts[k + 1] && #[trigger] is_sentence_end(s, i)
            ==> skip_ws(s, i + 1) == #[trigger] cuts[k + 1]
    &&& forall|i: int| cuts.last() <= i < s.len() ==> is_ws(#[trigger] s[i])
}

fn is_quote(c: char) -> (r: bool)
    ensures
        r == is_quote_char(c),
{
    c == '"' || c == '\u{201c}' || c == '\u{201d}' || c == '\'' || c == '\u{2018}' || c
        == '\u{2019}'
}

fn is_term(c: char) -> (r: bool)
    ensures
        r == is_terminator(c),
{
    c == '。' || c == '！' || c == '？' || c == '.' || c == '!' || c == '?'
}

proof fn lemma_quote_step(s: Seq<char>, i: int)
    requires
        0 <= i < s.len(),
    ensures
        quote_count(s.take(i + 1)) == quote_count(s.take(i)) + if is_quote_char(s[i]) {
            1nat
        } else {
            0nat
        },
{
    assert(s.take(i + 1).drop_last() =~= s.take(i));
}

proof fn lemma_quotes_ws(s: Seq<char>, a: int, b: int)
    requires
        0 <= a <= b <= s.len(),
        forall|m: int| a <= m < b ==> is_ws(#[trigger] s[m]),
    ensures
        quote_count(s.take(b)) == quote_count(s.take(a)),
    decreases b - a,
{
    if a < b {
        lemma_quote_step(s, b - 1);
        lemma_quotes_ws(s, a, b - 1);
    }
}

/// Splits `text` into sentences at `。！？.!?`, never inside quotes and never at a
/// period between two digits; the whitespace after a sentence end belongs to it.
pub fn split_sentences_advanced(text: &str) -> (r: Vec<SentenceOffset>)
    requires
        fits_i32(text@),
    ensures
        exists|cuts: Seq<int>| sentence_cuts(text@, r@, cuts),
{
    let chars = chars_of(text);
    let n = chars.len();
    let ghost s = chars@;
    let mut out: Vec<SentenceOffset> = Vec::new();
    let mut cur: usize = 0;
    let mut cur_b: usize = 0;
    let mut pos_b: usize = 0;
    let mut in_quote = false;
    let mut i: usize = 0;
    let ghost mut cuts: Seq<int> = seq![0];
    proof {
        lemma_offset_zero(s);
        assert(s.take(0) =~= Seq::<char>::empty());
    }
    while i < n
        invariant
            s == chars@,
            s == text@,
            n == s.len(),
            fits_i32(s),
            cur <= i <= n,
            cur_b == byte_offset(s, cur as int),
            pos_b == byte_offset(s, i as int),
            in_quote == (quote_count(s.take(i as int)) % 2 == 1),
            cuts.len() == out.len() + 1,
            cuts[0] == 0,
            cuts.last() == cur,
            forall|k: int| 0 <= k < out.len() ==> 0 <= #[trigger] cuts[k] < cuts[k + 1] <= cur,
            forall|k: int|
                0 <= k < out.len() ==> {
                    &&& (#[trigger] out@[k]).start == byte_offset(s, cuts[k])
                    &&& out@[k].end == byte_offset(s, cuts[k + 1])
                    &&& out@[k].text@ == trim(s.subrange(cuts[k], cuts[k + 1]))
                    &&& out@[k].text@.len() > 0
                },
            forall|k: int, j: int|
                0 <= k < out.len() && cuts[k] <= j < cuts[k + 1] && #[trigger] is_sentence_end(s, j)
                    ==> skip_ws(s, j + 1) == #[trigger] cuts[k + 1],
            forall|k: int|
                0 <= k < out.len() && #[trigger] cuts[k + 1] < s.len() ==> exists|j: int|
                    cuts[k] <= j < cuts[k + 1] && #[trigger] is_sentence_end(s, j) && skip_ws(
                        s,
                        j + 1,
                    ) == cuts[k + 1],
            forall|j: int| cur <= j < i ==> !#[trigger] is_sentence_end(s, j),
        decreases n - i,
    {
        let ch = chars[i];
        proof {
            lemma_quote_step(s, i as int);
            lemma_offset_step(s, i as int);
            lemma_offset_bounded(s, i + 1);
        }
        if is_quote(ch) {
            in_quote = !in_quote;
        }
        pos_b = pos_b + char_width(ch);
        let decimal = ch == '.' && i > 0 && i + 1 < n && '0' <= chars[i - 1]
            && chars[i - 1] <= '9' && '0' <= chars[i + 1] && chars[i + 1] <= '9';
        if is_term(ch) && !in_quote && !decimal {
            assert(is_sentence_end(s, i as int));
            let mut j = i + 1;
            while j < n && is_whitespace(chars[j])
                invariant
                    s == chars@,
                    n == s.len(),
                    fits_i32(s),
                    i < j <= n,
                    pos_b == byte_offset(s, j as int),
                    skip_ws(s, i + 1) == skip_ws(s, j as int),
                    forall|m: int| i < m < j ==> is_ws(#[trigger] s[m]),
                decreases n - j,
            {
                proof {
                    lemma_offset_step(s, j as int);
                    lemma_offset_bounded(s, j + 1);
                }
                pos_b = pos_b + char_width(chars[j]);
                j += 1;
            }
            assert(skip_ws(s, j as int) == j);
            let (a, b) = trim_range(&chars, cur, j);
            proof {
                assert(!is_ws(s[i as int]));
                lemma_offset_bounded(s, cur as int);
                lemma_offset_bounded(s, j as int);
            }
            let t = string_of(&chars, a, b);
            let sent = SentenceOffset { text: t, start: cur_b as i32, end: pos_b as i32 };
            let ghost old_cuts = cuts;
            let ghost old_out = out@;
            out.push(sent);
            proof {
                cuts = cuts.push(j as int);
                assert forall|k: int| 0 <= k < out.len() implies 0 <= #[trigger] cuts[k] < cuts[k + 1] <= j by {
                    if k < old_out.len() {
                        assert(cuts[k] == old_cuts[k] && cuts[k + 1] == old_cuts[k + 1]);
                    }
                }
                assert forall|k: int|
                    0 <= k < out.len() implies {
                        &&& (#[trigger] out@[k]).start == byte_offset(s, cuts[k])
                        &&& out@[k].end == byte_offset(s, cuts[k + 1])
                        &&& out@[k].text@ == trim(s.subrange(cuts[k], cuts[k + 1]))
                        &&& out@[k].text@.len() > 0
                    } by {
                    if k < old_out.len() {
                        assert(cuts[k] == old_cuts[k] && cuts[k + 1] == old_cuts[k + 1]);
                        assert(out@[k] == old_out[k]);
                    } else {
                        assert(cur <= i < j && !is_ws(chars@[i as int]));
                        assert(a < b);
                    }
                }
                assert forall|k: int, m: int|
                    0 <= k < out.len() && cuts[k] <= m < cuts[k + 1] && #[trigger] is_sentence_end(s, m)
                        implies skip_ws(s, m + 1) == #[trigger] cuts[k + 1] by {
                    if k < old_out.len() {
                        assert(cuts[k] == old_cuts[k] && cuts[k + 1] == old_cuts[k + 1]);
                    } else {
                        if m != i {
                            assert(is_ws(s[m]) || m < i);
                        }
                    }
                }
                assert forall|k: int|
                    0 <= k < out.len() && #[trigger] cuts[k + 1] < s.len() implies exists|m: int|
                        cuts[k] <= m < cuts[k + 1] && #[trigger] is_sentence_end(s, m) && skip_ws(
                            s,
                            m + 1,
                        ) == cuts[k + 1] by {
                    if k < old_out.len() {
                        assert(cuts[k] == old_cuts[k] && cuts[k + 1] == old_cuts[k + 1]);
                    } else {
                        assert(is_sentence_end(s, i as int));
                    }
                }
                assert forall|m: int| i + 1 <= m < j implies !#[trigger] is_sentence_end(s, m) by {
                    assert(is_ws(s[m]));
                }
            }
            cur = j;
            cur_b = pos_b;
            proof {
                lemma_quotes_ws(s, i + 1, j as int);
            }
            i = j;
        } else {
            assert(!is_sentence_end(s, i as int));
            i += 1;
        }
    }
    let (a, b) = trim_range(&chars, cur, n);
    if a < b {
        proof {
            lemma_offset_bounded(s, cur as int);
            lemma_offset_full(s);
        }
        let t = string_of(&chars, a, b);
        let sent = SentenceOffset { text: t, start: cur_b as i32, end: pos_b as i32 };
        let ghost old_cuts = cuts;
        let ghost old_out = out@;
        out.push(sent);
        proof {
            cuts = cuts.push(n as int);
            assert forall|k: int| 0 <= k < out.len() implies 0 <= #[trigger] cuts[k] < cuts[k + 1] <= n by {
                if k < old_out.len() {
                    assert(cuts[k] == old_cuts[k] && cuts[k + 1] == old_cuts[k + 1]);
                }
            }
            assert forall|k: int|
                0 <= k < out.len() implies {
                    &&& (#[trigger] out@[k]).start == byte_offset(s, cuts[k])
                    &&& out@[k].end == byte_offset(s, cuts[k + 1])
                    &&& out@[k].text@ == trim(s.subrange(cuts[k], cuts[k + 1]))
                    &&& out@[k].text@.len() > 0
                } by {
                if k < old_out.len() {
                    assert(cuts[k] == old_cuts[k] && cuts[k + 1] == old_cuts[k + 1]);
                    assert(out@[k] == old_out[k]);
                }
            }
            assert forall|k: int, m: int|
                0 <= k < out.len() && cuts[k] <= m < cuts[k + 1] && #[trigger] is_sentence_end(s, m)
                    implies skip_ws(s, m + 1) == #[trigger] cuts[k + 1] by {
                if k < old_out.len() {
                    assert(cuts[k] == old_cuts[k] && cuts[k + 1] == old_cuts[k + 1]);
                }
            }
            assert forall|k: int|
                0 <= k < out.len() && #[trigger] cuts[k + 1] < s.len() implies exists|m: int|
                    cuts[k] <= m < cuts[k + 1] && #[trigger] is_sentence_end(s, m) && skip_ws(
                        s,
                        m + 1,
                    ) == cuts[k + 1] by {
                assert(k < old_out.len());
                assert(cuts[k] == old_cuts[k] && cuts[k + 1] == old_cuts[k + 1]);
            }
        }
        reveal(sentence_cuts);
        assert(sentence_cuts(text@, out@, cuts));
    } else {
        reveal(sentence_cuts);
        assert(sentence_cuts(text@, out@, cuts));
    }
    out
}

/// The non-empty pieces of `s` between NUL characters, in order.
pub open spec fn nul_pieces(s: Seq<char>) -> Seq<Seq<char>>
    decreases s.len(),
{
    if s.len() == 0 {
        Seq::empty()
    } else {
        let k = last_nul(s);
        let tail = s.skip(k + 1);
        let head = if 0 <= k < s.len() { nul_pieces(s.take(k)) } else { Seq::empty() };
        if tail.len() > 0 { head.push(tail) } else { head }
    }
}

/// Index of the last NUL character of `s`, or -1.
pub open spec fn last_nul(s: Seq<char>) -> int
    decreases s.len(),
{
    if s.len() == 0 {
        -1
    } else if s.last() == '\0' {
        s.len() - 1
    } else {
        last_nul(s.drop_last())
    }
}

proof fn lemma_last_nul(s: Seq<char>)
    ensures
        -1 <= last_nul(s) < s.len(),
    decreases s.len(),
{
    if s.len() > 0 && s.last() != '\0' {
        lemma_last_nul(s.drop_last());
    }
}

/// The simple splitter: a sentence ends after `。！？?!` followed by whitespace, which
/// is dropped; `None` only if the splitting pattern failed to compile.
pub open spec fn simple_sentences(text: Seq<char>) -> Option<Seq<Seq<char>>> {
    match crate::filter::regex_replaced("([。！？?!])\\s+"@, text, "$1\0"@) {
        Some(marked) => Some(nul_pieces(marked)),
        None => None,
    }
}

/// Splits `text` where a sentence mark is followed by whitespace; empty when the text
/// is empty.
pub fn split_sentences(text: &str) -> (r: Vec<String>)
    ensures
        text@.len() == 0 ==> r.len() == 0,
        text@.len() > 0 && simple_sentences(text@) is Some ==> r.len() == simple_sentences(text@)->0.len() && forall|k: int|
            0 <= k < r.len() ==> (#[trigger] r@[k])@ == simple_sentences(text@)->0[k],
{
    if text.is_empty() {
        return Vec::new();
    }
    let marked = match crate::filter::regex_replace_all("([。！？?!])\\s+", text, "$1\0") {
        Some(m) => m,
        None => return Vec::new(),
    };
    let c = chars_of(marked.as_str());
    let mut out: Vec<String> = Vec::new();
    let mut start: usize = 0;
    let mut i: usize = 0;
    while i < c.len()
        invariant
            start <= i <= c.len(),
            last_nul(c@.take(i as int)) == start - 1,
            out@.len() == (if start == 0 { Seq::<Seq<char>>::empty() } else { nul_pieces(c@.take(start - 1)) }).len(),
            forall|k: int| 0 <= k < out@.len() ==> (#[trigger] out@[k])@ == (if start == 0 { Seq::<Seq<char>>::empty() } else { nul_pieces(c@.take(start - 1)) })[k],
        decreases c.len() - i,
    {
        proof {
            assert(c@.take(i + 1).drop_last() =~= c@.take(i as int));
            assert(c@.take(i + 1).last() == c@[i as int]);
        }
        if c[i] == '\0' {
            let ghost before = out@;
            let ghost prev = if start == 0 { Seq::<Seq<char>>::empty() } else { nul_pieces(c@.take(start - 1)) };
            if i > start {
                out.push(string_of(&c, start, i));
            }
            proof {
                let p = c@.take(i as int);
                lemma_last_nul(p);
                assert(p.skip(start as int) =~= c@.subrange(start as int, i as int));
                if start > 0 {
                    assert(p.take(start - 1) =~= c@.take(start - 1));
                }
                assert(nul_pieces(p) == (if i > start { prev.push(c@.subrange(start as int, i as int)) } else { prev }));
                assert(c@.take(i + 1).take(i as int) =~= p);
                assert forall|k: int| 0 <= k < out@.len() implies (#[trigger] out@[k])@ == nul_pieces(c@.take(i + 1 - 1))[k] by {
                    if k < before.len() {
                        assert(out@[k] == before[k]);
                    }
                }
            }
            start = i + 1;
        }
        i += 1;
    }
    let ghost prev = if start == 0 { Seq::<Seq<char>>::empty() } else { nul_pieces(c@.take(start - 1)) };
    let ghost before = out@;
    if c.len() > start {
        out.push(string_of(&c, start, c.len()));
    }
    proof {
        assert(c@.take(c.len() as int) =~= c@);
        lemma_last_nul(c@);
        assert(c@.skip(start as int) =~= c@.subrange(start as int, c.len() as int));
        if start > 0 {
            assert(c@.take(start - 1) =~= c@.take(start - 1));
        }
        assert(nul_pieces(c@) == (if c.len() > start { prev.push(c@.subrange(start as int, c.len() as int)) } else { prev }));
        assert forall|k: int| 0 <= k < out@.len() implies (#[trigger] out@[k])@ == nul_pieces(c@)[k] by {
            if k < before.len() {
                assert(out@[k] == before[k]);
            }
        }
    }
    out
}

} // verus!
