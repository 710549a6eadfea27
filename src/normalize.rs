//! Punctuation and whitespace normalisation of a document before it is split.
use vstd::prelude::*;
use crate::sentences::{trim, trim_range};
use crate::text::{chars_of, push_char};

verus! {

/// Curly quotes become straight ones, the em dash a hyphen, and ideographic and
/// non-breaking spaces ordinary spaces.
pub open spec fn plain_char(c: char) -> char {
    if c == '\u{201c}' || c == '\u{201d}' {
        '"'
    } else if c == '\u{2018}' || c == '\u{2019}' {
        '\''
    } else if c == '\u{2014}' {
        '-'
    } else if c == '\u{3000}' || c == '\u{a0}' {
        ' '
    } else {
        c
    }
}

/// `\r\n` and a lone `\r` become `\n`.
pub open spec fn unix_newlines(s: Seq<char>) -> Seq<char>
    decreases s.len(),
{
    if s.len() == 0 {
        s
    } else if s.last() == '\n' && s.len() > 1 && s[s.len() - 2] == '\r' {
        unix_newlines(s.drop_last())
    } else if s.last() == '\r' {
        unix_newlines(s.drop_last()).push('\n')
    } else {
        unix_newlines(s.drop_last()).push(s.last())
    }
}

/// Space, tab, form feed or vertical tab.
pub open spec fn is_hspace(c: char) -> bool {
    c == ' ' || c == '\t' || c == '\u{c}' || c == '\u{b}'
}

/// Every run of horizontal whitespace becomes one space.
pub open spec fn collapse_hspace(s: Seq<char>) -> Seq<char>
    decreases s.len(),
{
    if s.len() == 0 {
        s
    } else if is_hspace(s.last()) && s.len() > 1 && is_hspace(s[s.len() - 2]) {
        collapse_hspace(s.drop_last())
    } else if is_hspace(s.last()) {
        collapse_hspace(s.drop_last()).push(' ')
    } else {
        collapse_hspace(s.drop_last()).push(s.last())
    }
}

/// Index of the last line feed of `s`, or -1.
pub open spec fn last_newline(s: Seq<char>) -> int
    decreases s.len(),
{
    if s.len() == 0 {
        -1
    } else if s.last() == '\n' {
        s.len() - 1
    } else {
        last_newline(s.drop_last())
    }
}

proof fn lemma_last_newline_bound(s: Seq<char>)
    ensures
        -1 <= last_newline(s) < s.len(),
        last_newline(s) >= 0 ==> s[last_newline(s)] == '\n',
    decreases s.len(),
{
    if s.len() > 0 && s.last() != '\n' {
        lemma_last_newline_bound(s.drop_last());
    }
}

/// Every line trimmed, lines still separated by `\n`.
pub open spec fn trim_lines(s: Seq<char>) -> Seq<char>
    decreases s.len(),
{
    let k = last_newline(s);
    if k < 0 || k >= s.len() {
        trim(s)
    } else {
        trim_lines(s.take(k)) + seq!['\n'] + trim(s.skip(k + 1))
    }
}

/// The normalised text: plain punctuation, Unix line ends, single spaces, every line
/// trimmed, and the whole trimmed.
pub open spec fn normalized(s: Seq<char>) -> Seq<char> {
    trim(trim_lines(collapse_hspace(unix_newlines(s.map_values(|c: char| plain_char(c))))))
}

fn plain(v: &Vec<char>) -> (r: Vec<char>)
    ensures
        r@ == v@.map_values(|c: char| plain_char(c)),
{
    let mut out: Vec<char> = Vec::new();
    let mut i: usize = 0;
    while i < v.len()
        invariant
            i <= v.len(),
            out@ == v@.take(i as int).map_values(|c: char| plain_char(c)),
        decreases v.len() - i,
    {
        let c = v[i];
        let d = if c == '\u{201c}' || c == '\u{201d}' {
            '"'
        } else if c == '\u{2018}' || c == '\u{2019}' {
            '\''
        } else if c == '\u{2014}' {
            '-'
        } else if c == '\u{3000}' || c == '\u{a0}' {
            ' '
        } else {
            c
        };
        out.push(d);
        assert(v@.take(i + 1).map_values(|c: char| plain_char(c)) =~= v@.take(i as int).map_values(|c: char| plain_char(c)).push(d));
        i += 1;
    }
    assert(v@.take(v.len() as int) =~= v@);
    out
}

fn newlines(v: &Vec<char>) -> (r: Vec<char>)
    ensures
        r@ == unix_newlines(v@),
{
    let mut out: Vec<char> = Vec::new();
    let mut i: usize = 0;
    while i < v.len()
        invariant
            i <= v.len(),
            out@ == unix_newlines(v@.take(i as int)),
        decreases v.len() - i,
    {
        let c = v[i];
        proof {
            assert(v@.take(i + 1).drop_last() =~= v@.take(i as int));
            assert(v@.take(i + 1).last() == c);
            if i > 0 {
                assert(v@.take(i + 1)[i - 1] == v@[i - 1]);
            }
        }
        if c == '\n' && i > 0 && v[i - 1] == '\r' {
        } else if c == '\r' {
            out.push('\n');
        } else {
            out.push(c);
        }
        i += 1;
    }
    assert(v@.take(v.len() as int) =~= v@);
    out
}

fn collapse(v: &Vec<char>) -> (r: Vec<char>)
    ensures
        r@ == collapse_hspace(v@),
{
    let mut out: Vec<char> = Vec::new();
    let mut i: usize = 0;
    while i < v.len()
        invariant
            i <= v.len(),
            out@ == collapse_hspace(v@.take(i as int)),
        decreases v.len() - i,
    {
        let c = v[i];
        proof {
            assert(v@.take(i + 1).drop_last() =~= v@.take(i as int));
            assert(v@.take(i + 1).last() == c);
            if i > 0 {
                assert(v@.take(i + 1)[i - 1] == v@[i - 1]);
            }
        }
        let hs = c == ' ' || c == '\t' || c == '\u{c}' || c == '\u{b}';
        if hs && i > 0 && (v[i - 1] == ' ' || v[i - 1] == '\t' || v[i - 1] == '\u{c}' || v[i - 1] == '\u{b}') {
        } else if hs {
            out.push(' ');
        } else {
            out.push(c);
        }
        i += 1;
    }
    assert(v@.take(v.len() as int) =~= v@);
    out
}

fn push_range(out: &mut Vec<char>, v: &Vec<char>, a: usize, b: usize)
    requires
        a <= b <= v.len(),
    ensures
        final(out)@ == old(out)@ + v@.subrange(a as int, b as int),
{
    let mut i = a;
    while i < b
        invariant
            a <= i <= b <= v.len(),
            out@ == old(out)@ + v@.subrange(a as int, i as int),
        decreases b - i,
    {
        out.push(v[i]);
        assert(v@.subrange(a as int, i + 1) =~= v@.subrange(a as int, i as int).push(v@[i as int]));
        i += 1;
    }
}

fn lines_trimmed(v: &Vec<char>) -> (r: Vec<char>)
    ensures
        r@ == trim_lines(v@),
{
    let mut out: Vec<char> = Vec::new();
    let mut ls: usize = 0;
    let mut i: usize = 0;
    while i < v.len()
        invariant
            ls <= i <= v.len(),
            last_newline(v@.take(i as int)) == ls - 1,
            out@ == (if ls == 0 { Seq::<char>::empty() } else { trim_lines(v@.take(ls - 1)) + seq!['\n'] }),
        decreases v.len() - i,
    {
        let c = v[i];
        proof {
            assert(v@.take(i + 1).drop_last() =~= v@.take(i as int));
            assert(v@.take(i + 1).last() == c);
        }
        if c == '\n' {
            let (a, b) = trim_range(v, ls, i);
            let ghost before = out@;
            push_range(&mut out, v, a, b);
            out.push('\n');
            proof {
                let p = v@.take(i as int);
                assert(v@.subrange(ls as int, i as int) =~= p.skip(ls as int));
                if ls == 0 {
                    lemma_last_newline_bound(p);
                    assert(p =~= v@.subrange(0, i as int));
                    assert(trim_lines(p) == trim(p));
                } else {
                    assert(p.take(ls - 1) =~= v@.take(ls - 1));
                    assert(trim_lines(p) == trim_lines(p.take(ls - 1)) + seq!['\n'] + trim(p.skip(ls as int)));
                }
                assert(v@.take(i + 1).take(i as int) =~= p);
                assert(out@ =~= trim_lines(p) + seq!['\n']);
            }
            ls = i + 1;
        }
        i += 1;
    }
    let (a, b) = trim_range(v, ls, v.len());
    push_range(&mut out, v, a, b);
    proof {
        let p = v@.take(v.len() as int);
        assert(p =~= v@);
        assert(v@.subrange(ls as int, v.len() as int) =~= v@.skip(ls as int));
        if ls == 0 {
            assert(v@.subrange(0, v.len() as int) =~= v@);
        } else {
            assert(trim_lines(v@) == trim_lines(v@.take(ls - 1)) + seq!['\n'] + trim(v@.skip(ls as int)));
        }
        assert(out@ =~= trim_lines(v@));
    }
    out
}

/// Normalises punctuation and whitespace: curly quotes, the em dash and special spaces
/// become plain ones, line ends become `\n`, runs of horizontal whitespace become one
/// space, and every line and the whole text are trimmed.
pub fn normalize_punctuation(text: &str) -> (r: String)
    ensures
        r@ == normalized(text@),
{
    let v0 = chars_of(text);
    let v1 = plain(&v0);
    let v2 = newlines(&v1);
    let v3 = collapse(&v2);
    let v4 = lines_trimmed(&v3);
    let (a, b) = trim_range(&v4, 0, v4.len());
    let mut out = String::new();
    let mut i = a;
    while i < b
        invariant
            a <= i <= b <= v4.len(),
            out@ == v4@.subrange(a as int, i as int),
        decreases b - i,
    {
        push_char(&mut out, v4[i]);
        assert(v4@.subrange(a as int, i + 1) =~= v4@.subrange(a as int, i as int).push(v4@[i as int]));
        i += 1;
    }
    assert(v4@.subrange(0, v4@.len() as int) =~= v4@);
    out
}

} // verus!
