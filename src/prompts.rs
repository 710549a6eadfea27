//! The text of the requests sent to the remote model for one segment.
use vstd::prelude::*;
use crate::blocks::TextBlock;
use crate::catalog::{filled, DocumentProfile};
use crate::providers::{contains_text, text_contains};
use crate::sentences::{trim, trimmed};
use crate::text::{chars_of, head_chars, min_int, push_char};

verus! {

/// Characters of a neighbouring paragraph shown as context.
pub const CONTEXT_MAX_CHARS: usize = 600;

/// The neighbouring paragraphs of a segment, each cut to `CONTEXT_MAX_CHARS`.
#[derive(Debug, Clone)]
pub struct SegmentContext {
    pub prev: Option<String>,
    pub next: Option<String>,
}

/// The first `max_chars` characters of `text`.
pub fn truncate_context(text: &str, max_chars: usize) -> (r: String)
    ensures
        r@ == text@.take(min_int(max_chars as int, text@.len() as int)),
{
    head_chars(text, max_chars)
}

/// The position of the block with index `x`: position `x` itself when the block there
/// has that index, else the first block with it; -1 when there is none.
pub open spec fn neighbour(blocks: Seq<TextBlock>, x: int) -> int {
    if 0 <= x < blocks.len() && blocks[x].index == x {
        x
    } else if exists|p: int| 0 <= p < blocks.len() && blocks[p].index == x {
        choose|p: int| 0 <= p < blocks.len() && blocks[p].index == x && forall|q: int| 0 <= q < p ==> blocks[q].index != x
    } else {
        -1
    }
}

fn find_neighbour(blocks: &[TextBlock], x: i64) -> (r: Option<usize>)
    ensures
        match r {
            Some(p) => p < blocks.len() && neighbour(blocks@, x as int) == p,
            None => neighbour(blocks@, x as int) == -1,
        },
{
    if 0 <= x && (x as u128) < (blocks.len() as u128) && blocks[x as usize].index as i64 == x {
        return Some(x as usize);
    }
    let mut p: usize = 0;
    while p < blocks.len()
        invariant
            p <= blocks.len(),
            !(0 <= x < blocks.len() && blocks@[x as int].index == x),
            forall|q: int| 0 <= q < p ==> blocks@[q].index != x,
        decreases blocks.len() - p,
    {
        if blocks[p].index as i64 == x {
            proof {
                let c = choose|c: int| 0 <= c < blocks@.len() && blocks@[c].index == x && forall|q: int| 0 <= q < c ==> blocks@[q].index != x;
                if c < p {
                } else if c > p {
                    assert(blocks@[p as int].index == x);
                }
            }
            return Some(p);
        }
        p += 1;
    }
    None
}

/// The context of a block: the blocks with the previous and the next index, each cut to
/// 600 characters.
pub fn build_segment_context(block: &TextBlock, all_blocks: &[TextBlock]) -> (r: SegmentContext)
    ensures
        ({
            let pi = neighbour(all_blocks@, block.index - 1);
            let ni = neighbour(all_blocks@, block.index + 1);
            &&& (pi < 0 ==> r.prev is None)
            &&& (pi >= 0 ==> r.prev is Some && r.prev->0@ == all_blocks@[pi].text@.take(min_int(600, all_blocks@[pi].text@.len() as int)))
            &&& (ni < 0 ==> r.next is None)
            &&& (ni >= 0 ==> r.next is Some && r.next->0@ == all_blocks@[ni].text@.take(min_int(600, all_blocks@[ni].text@.len() as int)))
        }),
{
    let prev = match find_neighbour(all_blocks, block.index as i64 - 1) {
        Some(p) => Some(truncate_context(all_blocks[p].text.as_str(), CONTEXT_MAX_CHARS)),
        None => None,
    };
    let next = match find_neighbour(all_blocks, block.index as i64 + 1) {
        Some(p) => Some(truncate_context(all_blocks[p].text.as_str(), CONTEXT_MAX_CHARS)),
        None => None,
    };
    SegmentContext { prev, next }
}

fn push_text(out: &mut String, s: &str)
    ensures
        final(out)@ == old(out)@ + s@,
{
    let c = chars_of(s);
    let mut i: usize = 0;
    while i < c.len()
        invariant
            i <= c.len(),
            out@ == old(out)@ + c@.take(i as int),
        decreases c.len() - i,
    {
        push_char(out, c[i]);
        assert(c@.take(i + 1) =~= c@.take(i as int).push(c@[i as int]));
        i += 1;
    }
    assert(c@.take(c.len() as int) =~= c@);
}

/// A labelled line for an optional field that is filled, nothing otherwise.
pub open spec fn field_line(label: Seq<char>, v: Option<String>) -> Seq<char> {
    if filled(v) {
        label + trim(v->0@) + "\n"@
    } else {
        Seq::empty()
    }
}

/// The convention lines of the first items of `items[..k]`: one `  - item` line for
/// each item that is not blank.
pub open spec fn convention_lines(items: Seq<String>, k: int) -> Seq<char>
    decreases k,
{
    if k <= 0 {
        Seq::empty()
    } else {
        convention_lines(items, k - 1) + if trim(items[k - 1]@).len() > 0 {
            "  - "@ + trim(items[k - 1]@) + "\n"@
        } else {
            Seq::empty()
        }
    }
}

/// The profile as a short header: the category, the filled optional fields, the
/// summary, and up to six writing conventions.
pub open spec fn profile_header(p: DocumentProfile) -> Seq<char> {
    "文档概况:\n"@ + "- 学科门类: "@ + p.category@ + "\n"@ + field_line("- 一级学科: "@, p.discipline) + field_line(
        "- 二级学科/方向: "@,
        p.subfield,
    ) + field_line("- 论文类型: "@, p.paper_type) + "- 一句话摘要: "@ + p.summary@ + "\n"@ + if p.conventions@.len() > 0 {
        "- 写作约定:\n"@ + convention_lines(p.conventions@, min_int(6, p.conventions@.len() as int))
    } else {
        Seq::empty()
    }
}

fn push_field(out: &mut String, label: &str, v: &Option<String>)
    ensures
        final(out)@ == old(out)@ + field_line(label@, *v),
{
    match v {
        Some(x) => {
            let t = trimmed(x.as_str());
            if !t.as_str().is_empty() {
                push_text(out, label);
                push_text(out, t.as_str());
                push_text(out, "\n");
                proof {
                    reveal_strlit("\n");
                }
                assert(final(out)@ =~= old(out)@ + field_line(label@, *v));
            } else {
                assert(old(out)@ + field_line(label@, *v) =~= old(out)@);
            }
        },
        None => {
            assert(old(out)@ + field_line(label@, *v) =~= old(out)@);
        },
    }
}

pub fn format_doc_profile(profile: &DocumentProfile) -> (r: String)
    ensures
        r@ == profile_header(*profile),
{
    let mut s = String::new();
    push_text(&mut s, "文档概况:\n");
    push_text(&mut s, "- 学科门类: ");
    push_text(&mut s, profile.category.as_str());
    push_text(&mut s, "\n");
    push_field(&mut s, "- 一级学科: ", &profile.discipline);
    push_field(&mut s, "- 二级学科/方向: ", &profile.subfield);
    push_field(&mut s, "- 论文类型: ", &profile.paper_type);
    push_text(&mut s, "- 一句话摘要: ");
    push_text(&mut s, profile.summary.as_str());
    push_text(&mut s, "\n");
    let ghost before = s@;
    if profile.conventions.len() > 0 {
        push_text(&mut s, "- 写作约定:\n");
        let ghost mid = s@;
        let n = if profile.conventions.len() < 6 { profile.conventions.len() } else { 6 };
        let mut i: usize = 0;
        while i < n
            invariant
                n <= profile.conventions.len(),
                i <= n,
                s@ == mid + convention_lines(profile.conventions@, i as int),
            decreases n - i,
        {
            let t = trimmed(profile.conventions[i].as_str());
            let ghost pre = s@;
            if !t.as_str().is_empty() {
                push_text(&mut s, "  - ");
                push_text(&mut s, t.as_str());
                push_text(&mut s, "\n");
                assert(s@ =~= pre + ("  - "@ + trim(profile.conventions@[i as int]@) + "\n"@));
            }
            assert(mid + convention_lines(profile.conventions@, i + 1) =~= mid + convention_lines(profile.conventions@, i as int) + (if trim(profile.conventions@[i as int]@).len() > 0 {
                "  - "@ + trim(profile.conventions@[i as int]@) + "\n"@
            } else {
                Seq::empty()
            }));
            i += 1;
        }
        assert(s@ =~= profile_header(*profile));
    } else {
        assert(s@ =~= profile_header(*profile));
    }
    s
}

/// The context line of a neighbour that is present and not blank.
pub open spec fn context_part(label: Seq<char>, v: Option<String>) -> Seq<char> {
    if filled(v) {
        label + trim(v->0@) + "\n\n"@
    } else {
        Seq::empty()
    }
}

/// The request for one segment: the profile header (if any), the previous paragraph,
/// the segment itself, the next paragraph, and the instruction to judge the segment
/// alone.
pub open spec fn user_prompt(text: Seq<char>, ctx: Option<SegmentContext>, profile: Option<DocumentProfile>) -> Seq<char> {
    (match profile {
        Some(p) => profile_header(p) + "\n"@,
        None => Seq::empty(),
    }) + "上下文（仅供参考，不进行判定）：\n"@ + (match ctx {
        Some(c) => context_part("[上一段]\n"@, c.prev),
        None => Seq::empty(),
    }) + "[本段]\n"@ + trim(text) + "\n\n"@ + (match ctx {
        Some(c) => context_part("[下一段]\n"@, c.next),
        None => Seq::empty(),
    }) + "请只对[本段]输出JSON结果，勿把上下文当作判定对象。"@
}

fn push_context(out: &mut String, label: &str, v: &Option<String>)
    ensures
        final(out)@ == old(out)@ + context_part(label@, *v),
{
    match v {
        Some(x) => {
            let t = trimmed(x.as_str());
            if !t.as_str().is_empty() {
                push_text(out, label);
                push_text(out, t.as_str());
                push_text(out, "\n\n");
                assert(final(out)@ =~= old(out)@ + context_part(label@, *v));
            } else {
                assert(old(out)@ + context_part(label@, *v) =~= old(out)@);
            }
        },
        None => {
            assert(old(out)@ + context_part(label@, *v) =~= old(out)@);
        },
    }
}

pub fn build_segment_user_prompt(text: &str, context: Option<&SegmentContext>, doc_profile: Option<&DocumentProfile>) -> (r: String)
    ensures
        r@ == user_prompt(
            text@,
            match context {
                Some(c) => Some(*c),
                None => None,
            },
            match doc_profile {
                Some(p) => Some(*p),
                None => None,
            },
        ),
{
    let mut prompt = String::new();
    match doc_profile {
        Some(p) => {
            let h = format_doc_profile(p);
            push_text(&mut prompt, h.as_str());
            push_text(&mut prompt, "\n");
        },
        None => {},
    }
    let ghost a = prompt@;
    push_text(&mut prompt, "上下文（仅供参考，不进行判定）：\n");
    let ghost b = prompt@;
    match context {
        Some(c) => push_context(&mut prompt, "[上一段]\n", &c.prev),
        None => {},
    }
    let ghost c1 = prompt@;
    push_text(&mut prompt, "[本段]\n");
    let t = trimmed(text);
    push_text(&mut prompt, t.as_str());
    push_text(&mut prompt, "\n\n");
    let ghost d = prompt@;
    match context {
        Some(c) => push_context(&mut prompt, "[下一段]\n", &c.next),
        None => {},
    }
    push_text(&mut prompt, "请只对[本段]输出JSON结果，勿把上下文当作判定对象。");
    assert(prompt@ =~= user_prompt(
        text@,
        match context {
            Some(c) => Some(*c),
            None => None,
        },
        match doc_profile {
            Some(p) => Some(*p),
            None => None,
        },
    ));
    prompt
}

/// A remote error message, with a hint about the key when the service answered 401.
pub open spec fn enriched(message: Seq<char>) -> Seq<char> {
    if contains_text(message, "API error: 401"@) {
        message + "（请检查 Token/API Key 是否正确或已过期）"@
    } else {
        message
    }
}

pub fn enrich_llm_call_error(message: &str) -> (r: String)
    ensures
        r@ == enriched(message@),
{
    let mut out = String::new();
    push_text(&mut out, message);
    if text_contains(message, "API error: 401") {
        push_text(&mut out, "（请检查 Token/API Key 是否正确或已过期）");
    }
    assert(out@ =~= enriched(message@));
    out
}

} // verus!
