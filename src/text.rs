//! Character/byte model of UTF-8 text, and boundary-safe slicing.
//!
//! A `str` is seen as its sequence of characters; the byte offset of the
//! character with index `k` is the total UTF-8 width of the characters before it.
use vstd::prelude::*;
use vstd::std_specs::iter::IteratorSpec;

verus! {

broadcast use vstd::string::group_string_axioms;

/// Number of bytes that the UTF-8 encoding of `c` takes.
pub open spec fn utf8_width(c: char) -> nat {
    if (c as u32) < 0x80 {
        1
    } else if (c as u32) < 0x800 {
        2
    } else if (c as u32) < 0x10000 {
        3
    } else {
        4
    }
}

/// Byte length of the UTF-8 encoding of a character sequence.
pub open spec fn byte_len(s: Seq<char>) -> nat
    decreases s.len(),
{
    if s.len() == 0 {
        0
    } else {
        byte_len(s.drop_last()) + utf8_width(s.last())
    }
}

/// Byte offset at which the character with index `k` starts.
pub open spec fn byte_offset(s: Seq<char>, k: int) -> nat {
    byte_len(s.take(k))
}

/// A text whose byte offsets all fit in an `i32`.
pub open spec fn fits_i32(s: Seq<char>) -> bool {
    byte_len(s) <= i32::MAX
}

/// `b` is a byte offset at which a character starts (or the end of the text).
pub open spec fn is_boundary(s: Seq<char>, b: int) -> bool {
    exists|k: int| 0 <= k <= s.len() && #[trigger] byte_offset(s, k) == b
}

/// `k` is the first character index whose byte offset is at least `b`.
pub open spec fn is_ceil(s: Seq<char>, b: int, k: int) -> bool {
    &&& 0 <= k <= s.len()
    &&& b <= byte_offset(s, k)
    &&& forall|j: int| 0 <= j < k ==> #[trigger] byte_offset(s, j) < b
}

/// `k` is the last character index whose byte offset is at most `b`.
pub open spec fn is_floor(s: Seq<char>, b: int, k: int) -> bool {
    &&& 0 <= k <= s.len()
    &&& byte_offset(s, k) <= b
    &&& forall|j: int| k < j <= s.len() ==> #[trigger] byte_offset(s, j) > b
}

/// The first character index whose byte offset is at least `b`.
pub open spec fn ceil_of(s: Seq<char>, b: int) -> int {
    choose|k: int| is_ceil(s, b, k)
}

/// The last character index whose byte offset is at most `b`.
pub open spec fn floor_of(s: Seq<char>, b: int) -> int {
    choose|k: int| is_floor(s, b, k)
}

/// The characters between the byte offsets `s0` and `e0` once the start is moved
/// forward and the end backward to character boundaries (empty when nothing is left).
pub open spec fn snapped(s: Seq<char>, s0: int, e0: int) -> Seq<char> {
    let cs = ceil_of(s, s0);
    let ce = floor_of(s, e0);
    if cs < ce {
        s.subrange(cs, ce)
    } else {
        Seq::<char>::empty()
    }
}

/// What a preview of at most `max` bytes starting at `s0`, and not past `el`, holds:
/// the start moved forward and the end moved backward to character boundaries.
pub open spec fn previewed(s: Seq<char>, s0: int, el: int, max: int) -> Seq<char> {
    let cs = ceil_of(s, s0);
    let off = byte_offset(s, cs);
    if off < el {
        s.subrange(cs, floor_of(s, if off + max < el { off + max } else { el }))
    } else {
        Seq::<char>::empty()
    }
}

pub proof fn lemma_ceil_of(s: Seq<char>, b: int, k: int)
    requires
        is_ceil(s, b, k),
    ensures
        ceil_of(s, b) == k,
{
    let c = ceil_of(s, b);
    assert(is_ceil(s, b, c));
    if c < k {
        assert(byte_offset(s, c) < b);
    } else if k < c {
        assert(byte_offset(s, k) < b);
    }
}

pub proof fn lemma_floor_of(s: Seq<char>, b: int, k: int)
    requires
        is_floor(s, b, k),
    ensures
        floor_of(s, b) == k,
{
    let c = floor_of(s, b);
    assert(is_floor(s, b, c));
    if c < k {
        assert(byte_offset(s, k) > b);
    } else if k < c {
        assert(byte_offset(s, c) > b);
    }
}

pub proof fn lemma_offset_zero(s: Seq<char>)
    ensures
        byte_offset(s, 0) == 0,
{
    assert(s.take(0).len() == 0);
}

pub proof fn lemma_offset_full(s: Seq<char>)
    ensures
        byte_offset(s, s.len() as int) == byte_len(s),
{
    assert(s.take(s.len() as int) =~= s);
}

pub proof fn lemma_offset_step(s: Seq<char>, k: int)
    requires
        0 <= k < s.len(),
    ensures
        byte_offset(s, k + 1) == byte_offset(s, k) + utf8_width(s[k]),
{
    assert(s.take(k + 1).drop_last() =~= s.take(k));
    assert(s.take(k + 1).last() == s[k]);
}

pub proof fn lemma_offset_mono(s: Seq<char>, i: int, j: int)
    requires
        0 <= i <= j <= s.len(),
    ensures
        byte_offset(s, i) <= byte_offset(s, j),
        i < j ==> byte_offset(s, i) < byte_offset(s, j),
    decreases j - i,
{
    if i < j {
        lemma_offset_step(s, j - 1);
        lemma_offset_mono(s, i, j - 1);
    }
}

pub proof fn lemma_offset_bounded(s: Seq<char>, k: int)
    requires
        0 <= k <= s.len(),
    ensures
        byte_offset(s, k) <= byte_len(s),
{
    lemma_offset_mono(s, k, s.len() as int);
    lemma_offset_full(s);
}

/// Executable counterpart of `utf8_width`.
pub fn char_width(c: char) -> (r: usize)
    ensures
        r == utf8_width(c),
{
    let u = c as u32;
    if u < 0x80 {
        1
    } else if u < 0x800 {
        2
    } else if u < 0x10000 {
        3
    } else {
        4
    }
}

/// The characters of `text`, in order.
pub fn chars_of(text: &str) -> (r: Vec<char>)
    ensures
        r@ == text@,
{
    let mut out: Vec<char> = Vec::new();
    for c in it: text.chars()
        invariant
            out@ == it.seq().take(it.index() as int),
    {
        out.push(c);
        assert(it.seq().take(it.index() + 1) =~= it.seq().take(it.index() as int).push(c));
    }
    assert(out@ =~= text@);
    out
}

/// Relies on String::push: appends one character at the end.
#[verifier::external_body]
pub(crate) fn push_char(s: &mut String, c: char)
    ensures
        final(s)@ == old(s)@.push(c),
{
    s.push(c);
}

/// The string made of `chars[lo..hi]`.
pub fn string_of(chars: &Vec<char>, lo: usize, hi: usize) -> (r: String)
    requires
        lo <= hi <= chars.len(),
    ensures
        r@ == chars@.subrange(lo as int, hi as int),
{
    let mut out = String::new();
    let mut i = lo;
    while i < hi
        invariant
            lo <= i <= hi <= chars.len(),
            out@ == chars@.subrange(lo as int, i as int),
        decreases hi - i,
    {
        push_char(&mut out, chars[i]);
        assert(chars@.subrange(lo as int, i + 1) =~= chars@.subrange(lo as int, i as int).push(chars@[i as int]));
        i += 1;
    }
    out
}

/// Total UTF-8 byte length of `chars`.
pub fn byte_len_of(chars: &Vec<char>) -> (r: usize)
    requires
        byte_len(chars@) <= usize::MAX,
    ensures
        r == byte_len(chars@),
{
    let mut pos: usize = 0;
    let mut k: usize = 0;
    proof { lemma_offset_zero(chars@); }
    while k < chars.len()
        invariant
            k <= chars.len(),
            pos == byte_offset(chars@, k as int),
            byte_len(chars@) <= usize::MAX,
        decreases chars.len() - k,
    {
        proof {
            lemma_offset_step(chars@, k as int);
            lemma_offset_bounded(chars@, k + 1);
        }
        pos = pos + char_width(chars[k]);
        k += 1;
    }
    proof { lemma_offset_full(chars@); }
    pos
}

/// Index of the first character whose byte offset is at least `b`.
pub fn ceil_index(chars: &Vec<char>, b: usize) -> (k: usize)
    requires
        b <= byte_len(chars@),
        byte_len(chars@) <= usize::MAX,
    ensures
        is_ceil(chars@, b as int, k as int),
{
    let mut pos: usize = 0;
    let mut k: usize = 0;
    proof { lemma_offset_zero(chars@); lemma_offset_full(chars@); }
    while pos < b
        invariant
            k <= chars.len(),
            pos == byte_offset(chars@, k as int),
            b <= byte_len(chars@) <= usize::MAX,
            byte_offset(chars@, chars.len() as int) == byte_len(chars@),
            forall|j: int| 0 <= j < k ==> #[trigger] byte_offset(chars@, j) < b,
        decreases chars.len() - k,
    {
        proof {
            lemma_offset_step(chars@, k as int);
            lemma_offset_bounded(chars@, k + 1);
        }
        pos = pos + char_width(chars[k]);
        k += 1;
    }
    k
}

/// Index of the last character whose byte offset is at most `b`.
pub fn floor_index(chars: &Vec<char>, b: usize) -> (k: usize)
    requires
        byte_len(chars@) <= usize::MAX,
    ensures
        is_floor(chars@, b as int, k as int),
{
    let mut pos: usize = 0;
    let mut k: usize = 0;
    proof { lemma_offset_zero(chars@); }
    while k < chars.len()
        invariant
            k <= chars.len(),
            pos == byte_offset(chars@, k as int),
            pos <= b,
            byte_len(chars@) <= usize::MAX,
        ensures
            k <= chars.len(),
            pos == byte_offset(chars@, k as int),
            pos <= b,
            k < chars.len() ==> pos + utf8_width(chars@[k as int]) > b,
        decreases chars.len() - k,
    {
        proof {
            lemma_offset_step(chars@, k as int);
            lemma_offset_bounded(chars@, k + 1);
        }
        let w = char_width(chars[k]);
        if pos + w > b {
            break;
        }
        pos = pos + w;
        k += 1;
    }
    proof {
        if k < chars.len() {
            lemma_offset_step(chars@, k as int);
            assert forall|j: int| k < j <= chars@.len() implies #[trigger] byte_offset(chars@, j) > b by {
                lemma_offset_mono(chars@, k + 1, j);
            }
        }
    }
    k
}

/// Byte offset of the character with index `k`.
pub fn offset_of(chars: &Vec<char>, k: usize) -> (r: usize)
    requires
        k <= chars.len(),
        byte_len(chars@) <= usize::MAX,
    ensures
        r == byte_offset(chars@, k as int),
{
    let mut pos: usize = 0;
    let mut i: usize = 0;
    proof { lemma_offset_zero(chars@); }
    while i < k
        invariant
            i <= k <= chars.len(),
            pos == byte_offset(chars@, i as int),
            byte_len(chars@) <= usize::MAX,
        decreases k - i,
    {
        proof {
            lemma_offset_step(chars@, i as int);
            lemma_offset_bounded(chars@, i + 1);
        }
        pos = pos + char_width(chars[i]);
        i += 1;
    }
    pos
}

/// Whether a character starts at byte offset `b` (or `b` is the end of the text).
pub fn boundary_at(chars: &Vec<char>, b: usize) -> (r: bool)
    requires
        byte_len(chars@) <= usize::MAX,
    ensures
        r == is_boundary(chars@, b as int),
{
    let len = byte_len_of(chars);
    if b > len {
        proof {
            assert forall|k: int| 0 <= k <= chars@.len() implies #[trigger] byte_offset(chars@, k) != b by {
                lemma_offset_bounded(chars@, k);
            }
        }
        return false;
    }
    let k = ceil_index(chars, b);
    let off = offset_of(chars, k);
    proof {
        if off != b {
            assert forall|j: int| 0 <= j <= chars@.len() implies #[trigger] byte_offset(chars@, j) != b by {
                if j > k {
                    lemma_offset_mono(chars@, k as int, j);
                }
            }
        }
    }
    off == b
}

pub open spec fn min_int(a: int, b: int) -> int {
    if a < b { a } else { b }
}

/// The characters of `s` between the byte offsets `start` and `end`, each clamped to
/// the text and moved to a character boundary (start forward, end backward).
pub open spec fn bytes_slice(s: Seq<char>, start: int, end: int) -> Seq<char> {
    if start < 0 || end <= start {
        Seq::<char>::empty()
    } else {
        snapped(s, min_int(start, byte_len(s) as int), min_int(end, byte_len(s) as int))
    }
}

/// The text between two byte offsets, each clamped to the text and moved to a
/// character boundary (start forward, end backward); empty when the range is empty
/// or negative.
pub fn slice_by_bytes(text: &str, start: i32, end: i32) -> (r: String)
    requires
        fits_i32(text@),
    ensures
        r@ == bytes_slice(text@, start as int, end as int),
{
    if start < 0 || end <= start {
        return String::new();
    }
    let chars = chars_of(text);
    let len = byte_len_of(&chars);
    let s0: usize = if (start as usize) < len { start as usize } else { len };
    let e0: usize = if (end as usize) < len { end as usize } else { len };
    let cs = ceil_index(&chars, s0);
    let ce = floor_index(&chars, e0);
    proof {
        lemma_ceil_of(text@, s0 as int, cs as int);
        lemma_floor_of(text@, e0 as int, ce as int);
    }
    if cs < ce {
        string_of(&chars, cs, ce)
    } else {
        String::new()
    }
}

/// A preview of at most `max_bytes` bytes of `text[start..end]`, cut on character
/// boundaries so that it never splits a multi-byte character.
pub fn safe_preview(text: &str, start: i32, end: i32, max_bytes: usize) -> (r: String)
    requires
        fits_i32(text@),
    ensures
        start < 0 || end <= start || max_bytes == 0 ==> r@ == Seq::<char>::empty(),
        !(start < 0 || end <= start || max_bytes == 0) ==> r@ == previewed(
            text@,
            min_int(start as int, byte_len(text@) as int),
            min_int(end as int, byte_len(text@) as int),
            max_bytes as int,
        ),
{
    if start < 0 || end <= start || max_bytes == 0 {
        return String::new();
    }
    let chars = chars_of(text);
    let len = byte_len_of(&chars);
    let s0: usize = if (start as usize) < len { start as usize } else { len };
    let el: usize = if (end as usize) < len { end as usize } else { len };
    let cs = ceil_index(&chars, s0);
    let off = offset_of(&chars, cs);
    proof { lemma_ceil_of(text@, s0 as int, cs as int); }
    if off >= el {
        return String::new();
    }
    let e: usize = if max_bytes < el - off { off + max_bytes } else { el };
    let ce = floor_index(&chars, e);
    proof {
        lemma_floor_of(text@, e as int, ce as int);
        if ce < cs {
            lemma_offset_mono(chars@, ce as int, cs as int);
        }
    }
    string_of(&chars, cs, ce)
}

/// The first `max_chars` characters of `s` (all of it when shorter).
pub fn head_chars(s: &str, max_chars: usize) -> (r: String)
    ensures
        r@ == s@.take(min_int(max_chars as int, s@.len() as int)),
{
    let chars = chars_of(s);
    let n = if max_chars < chars.len() { max_chars } else { chars.len() };
    let r = string_of(&chars, 0, n);
    assert(r@ =~= s@.take(n as int));
    r
}

/// The last `max_chars` characters of `s` (all of it when shorter).
pub fn tail_chars(s: &str, max_chars: usize) -> (r: String)
    ensures
        r@ == s@.skip(s@.len() - min_int(max_chars as int, s@.len() as int)),
{
    let chars = chars_of(s);
    let n = if max_chars < chars.len() { max_chars } else { chars.len() };
    let r = string_of(&chars, chars.len() - n, chars.len());
    assert(r@ =~= s@.skip(chars.len() - n));
    r
}

/// Converts a count of characters into the byte offset where that character starts;
/// the end of the text for a count equal to its length, `None` past it.
pub fn char_offset_to_utf8_byte_index(text: &str, char_offset: usize) -> (r: Option<usize>)
    requires
        byte_len(text@) <= usize::MAX,
    ensures
        r == (if char_offset <= text@.len() {
            Some(byte_offset(text@, char_offset as int) as usize)
        } else {
            None
        }),
{
    let chars = chars_of(text);
    if char_offset > chars.len() {
        return None;
    }
    Some(offset_of(&chars, char_offset))
}

/// `Some(value)` when it fits in an `i32`.
pub fn usize_to_i32(value: usize) -> (r: Option<i32>)
    ensures
        r == (if value <= i32::MAX { Some(value as i32) } else { None::<i32> }),
{
    if value <= i32::MAX as usize {
        Some(value as i32)
    } else {
        None
    }
}

/// Offsets that already fall on character boundaries are kept as bytes; otherwise
/// both are read as character counts and converted to bytes.
pub fn normalize_offsets_to_utf8_bytes(text: &str, start: i32, end: i32) -> (r: Option<(i32, i32)>)
    requires
        fits_i32(text@),
    ensures
        r == (if start < 0 || end < 0 || end < start {
            None
        } else if is_boundary(text@, start as int) && is_boundary(text@, end as int) {
            Some((start, end))
        } else if end as int <= text@.len() {
            Some(
                (
                    byte_offset(text@, start as int) as i32,
                    byte_offset(text@, end as int) as i32,
                ),
            )
        } else {
            None
        }),
{
    if start < 0 || end < 0 || end < start {
        return None;
    }
    let chars = chars_of(text);
    if boundary_at(&chars, start as usize) && boundary_at(&chars, end as usize) {
        return Some((start, end));
    }
    if end as usize > chars.len() {
        return None;
    }
    let sb = offset_of(&chars, start as usize);
    let eb = offset_of(&chars, end as usize);
    proof {
        lemma_offset_bounded(chars@, start as int);
        lemma_offset_bounded(chars@, end as int);
    }
    Some((sb as i32, eb as i32))
}

/// Offsets at character boundaries are kept as they are by `snapped`.
pub proof fn lemma_snapped_exact(s: Seq<char>, a: int, b: int)
    requires
        0 <= a <= b <= s.len(),
    ensures
        snapped(s, byte_offset(s, a) as int, byte_offset(s, b) as int) == (if a < b {
            s.subrange(a, b)
        } else {
            Seq::<char>::empty()
        }),
{
    assert forall|j: int| 0 <= j < a implies #[trigger] byte_offset(s, j) < byte_offset(s, a) by {
        lemma_offset_mono(s, j, a);
    }
    assert forall|j: int| b < j <= s.len() implies #[trigger] byte_offset(s, j) > byte_offset(s, b) by {
        lemma_offset_mono(s, b, j);
    }
    lemma_ceil_of(s, byte_offset(s, a) as int, a);
    lemma_floor_of(s, byte_offset(s, b) as int, b);
}

/// Every character takes at least one byte.
pub proof fn lemma_len_le_bytes(s: Seq<char>)
    ensures
        s.len() <= byte_len(s),
    decreases s.len(),
{
    if s.len() > 0 {
        lemma_len_le_bytes(s.drop_last());
    }
}

/// The number of characters of `s`.
pub fn char_count(s: &str) -> (r: usize)
    ensures
        r == s@.len(),
{
    chars_of(s).len()
}

/// What `str::to_lowercase` makes of a character sequence.
pub uninterp spec fn lower_of(s: Seq<char>) -> Seq<char>;

/// Relies on str::to_lowercase: the lowercase mapping of the characters, which depends
/// on them alone.
#[verifier::external_body]
pub(crate) fn lowercase(s: &str) -> (r: String)
    ensures
        r@ == lower_of(s@),
{
    s.to_lowercase()
}

/// Whether two strings hold the same characters.
pub fn same_text(a: &str, b: &str) -> (r: bool)
    ensures
        r == (a@ == b@),
{
    let x = chars_of(a);
    let y = chars_of(b);
    if x.len() != y.len() {
        return false;
    }
    let mut i: usize = 0;
    while i < x.len()
        invariant
            x@ == a@,
            y@ == b@,
            x.len() == y.len(),
            i <= x.len(),
            forall|j: int| 0 <= j < i ==> x@[j] == y@[j],
        decreases x.len() - i,
    {
        if x[i] != y[i] {
            assert(x@[i as int] != y@[i as int]);
            return false;
        }
        i += 1;
    }
    assert(x@ =~= y@);
    true
}

/// `s` with every line feed turned into a space.
pub open spec fn one_line(s: Seq<char>) -> Seq<char> {
    Seq::new(s.len(), |i: int| if s[i] == '\n' { ' ' } else { s[i] })
}

/// A one-line preview: the first `max_chars` characters, followed by `...` when the
/// text is longer, with line feeds shown as spaces.
pub fn preview(s: &str, max_chars: usize) -> (r: String)
    ensures
        r@ == one_line(
            if s@.len() > max_chars {
                s@.take(max_chars as int) + "..."@
            } else {
                s@
            },
        ),
{
    let chars = chars_of(s);
    let n = if chars.len() > max_chars { max_chars } else { chars.len() };
    let mut out = String::new();
    let mut i: usize = 0;
    while i < n
        invariant
            n <= chars.len(),
            i <= n,
            out@ == one_line(chars@.take(i as int)),
        decreases n - i,
    {
        let c = chars[i];
        push_char(&mut out, if c == '\n' { ' ' } else { c });
        assert(one_line(chars@.take(i + 1)) =~= one_line(chars@.take(i as int)).push(if c == '\n' { ' ' } else { c }));
        i += 1;
    }
    proof {
        reveal_strlit("...");
    }
    if chars.len() > max_chars {
        push_char(&mut out, '.');
        push_char(&mut out, '.');
        push_char(&mut out, '.');
        assert(out@ =~= one_line(s@.take(max_chars as int) + "..."@));
    } else {
        assert(chars@.take(n as int) =~= s@);
    }
    out
}

proof fn lemma_ceil_search(s: Seq<char>, b: int, k: int)
    requires
        0 <= k <= s.len(),
        b <= byte_len(s),
        forall|j: int| 0 <= j < k ==> #[trigger] byte_offset(s, j) < b,
    ensures
        is_ceil(s, b, ceil_of(s, b)),
    decreases s.len() - k,
{
    if b <= byte_offset(s, k) {
        assert(is_ceil(s, b, k));
    } else {
        lemma_offset_full(s);
        lemma_ceil_search(s, b, k + 1);
    }
}

proof fn lemma_floor_search(s: Seq<char>, e: int, k: int)
    requires
        0 <= k <= s.len(),
        0 <= e,
        forall|j: int| k < j <= s.len() ==> #[trigger] byte_offset(s, j) > e,
    ensures
        is_floor(s, e, floor_of(s, e)),
    decreases k,
{
    if byte_offset(s, k) <= e {
        assert(is_floor(s, e, k));
    } else {
        lemma_offset_zero(s);
        lemma_floor_search(s, e, k - 1);
    }
}

proof fn lemma_byte_len_split(s: Seq<char>, a: int, b: int)
    requires
        0 <= a <= b <= s.len(),
    ensures
        byte_offset(s, b) == byte_offset(s, a) + byte_len(s.subrange(a, b)),
    decreases b - a,
{
    if a == b {
        assert(s.subrange(a, b).len() == 0);
    } else {
        lemma_byte_len_split(s, a, b - 1);
        lemma_offset_step(s, b - 1);
        assert(s.subrange(a, b).drop_last() =~= s.subrange(a, b - 1));
        assert(s.subrange(a, b).last() == s[b - 1]);
    }
}

/// A preview is a run of whole characters of the text, starting at or after the start
/// offset and ending at or before the end offset, and its UTF-8 encoding takes at most
/// `max` bytes.
pub proof fn lemma_preview_within(s: Seq<char>, s0: int, el: int, max: int)
    requires
        0 <= s0 <= byte_len(s),
        0 <= el <= byte_len(s),
        0 <= max,
    ensures
        byte_len(previewed(s, s0, el, max)) <= max,
        previewed(s, s0, el, max).len() == 0 || exists|a: int, b: int|
            0 <= a <= b <= s.len() && s0 <= byte_offset(s, a) && byte_offset(s, b) <= el
                && #[trigger] s.subrange(a, b) == previewed(s, s0, el, max),
{
    lemma_ceil_search(s, s0, 0);
    let cs = ceil_of(s, s0);
    let off = byte_offset(s, cs) as int;
    if off < el {
        let e = if off + max < el { off + max } else { el };
        lemma_floor_search(s, e, s.len() as int);
        let ce = floor_of(s, e);
        if ce < cs {
            lemma_offset_mono(s, ce, cs);
            assert(byte_offset(s, ce + 1) > e);
            lemma_offset_mono(s, ce + 1, cs);
        }
        lemma_byte_len_split(s, cs, ce);
        assert(s.subrange(cs, ce) == previewed(s, s0, el, max));
    } else {
        assert(byte_len(Seq::<char>::empty()) == 0);
    }
}

/// The snapped slice of the text between two offsets that are already character
/// boundaries is exactly the characters between them.
pub proof fn lemma_slice_exact(s: Seq<char>, a: int, b: int)
    requires
        0 <= a < b <= s.len(),
    ensures
        bytes_slice(s, byte_offset(s, a) as int, byte_offset(s, b) as int) == s.subrange(a, b),
{
    lemma_offset_mono(s, a, b);
    lemma_offset_bounded(s, b);
    lemma_snapped_exact(s, a, b);
}

} // verus!
