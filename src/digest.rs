//! The text sent to the document profiler: the whole document when it is short enough,
//! otherwise a digest of sampled paragraphs within a token budget.
use vstd::prelude::*;
use crate::blocks::TextBlock;
use crate::language::{estimate_tokens, estimated_tokens};
use crate::text::chars_of;
use crate::text::{head_chars, min_int, push_char};

verus! {

/// The token budget of the profiler's input.
pub const DOC_PROFILE_MAX_TOKENS: i32 = 6000;

/// Characters kept when no sampled paragraph fits the budget.
pub const DOC_PROFILE_FALLBACK_CHARS: usize = 4000;

/// Positions of the sampled paragraphs among `n`: the first three, evenly spaced ones
/// from the middle (when there are more than six), and the last two.
pub open spec fn sampled(n: int, step: int, p: int) -> bool {
    &&& 0 <= p < n
    &&& {
        ||| p < 3
        ||| (n > 6 && 3 <= p < n - 2 && (p - 3) % step == 0)
        ||| p >= n - 2
    }
}

/// The spacing of the middle sample.
pub open spec fn sample_step(n: int) -> int {
    if n > 6 && (n - 5) / 4 >= 1 { (n - 5) / 4 } else { 1 }
}

/// `v` is strictly increasing.
pub open spec fn increasing(v: Seq<i32>) -> bool {
    forall|a: int, b: int| 0 <= a < b < v.len() ==> v[a] < v[b]
}

/// Inserts `x` into the increasing `v`, unless it is there already.
fn insert_sorted(v: &mut Vec<i32>, x: i32)
    requires
        increasing(old(v)@),
    ensures
        increasing(final(v)@),
        forall|y: i32| final(v)@.contains(y) <==> (old(v)@.contains(y) || y == x),
{
    let mut i: usize = 0;
    while i < v.len() && v[i] < x
        invariant
            v@ == old(v)@,
            i <= v.len(),
            forall|a: int| 0 <= a < i ==> v@[a] < x,
        decreases v.len() - i,
    {
        i += 1;
    }
    if i < v.len() && v[i] == x {
        assert(v@[i as int] == x);
        assert(v@.contains(x));
        return;
    }
    let ghost before = v@;
    assert(before == old(v)@);
    v.insert(i, x);
    proof {
        assert forall|a: int, b: int| 0 <= a < b < v@.len() implies v@[a] < v@[b] by {
            if b < i {
                assert(v@[a] == before[a] && v@[b] == before[b]);
            } else if b == i {
                assert(v@[a] == before[a]);
            } else if a < i {
                assert(v@[b] == before[b - 1]);
                assert(before[a] < before[b - 1]);
            } else if a == i {
                assert(v@[b] == before[b - 1]);
                assert(i < before.len() ==> before[i as int] > x);
                if b - 1 > i {
                    assert(before[i as int] < before[b - 1]);
                }
            } else {
                assert(v@[a] == before[a - 1] && v@[b] == before[b - 1]);
            }
        }
        assert forall|y: i32| #![trigger v@.contains(y)] #![trigger old(v)@.contains(y)] v@.contains(y) <==> (old(v)@.contains(y) || y == x) by {
            if v@.contains(y) {
                let k = choose|k: int| 0 <= k < v@.len() && v@[k] == y;
                if k < i {
                    assert(before[k] == y);
                } else if k > i {
                    assert(before[k - 1] == y);
                }
            }
            if before.contains(y) {
                let k = choose|k: int| 0 <= k < before.len() && before[k] == y;
                if k < i {
                    assert(v@[k] == y);
                } else {
                    assert(v@[k + 1] == y);
                }
            }
            if y == x {
                assert(v@[i as int] == x);
            }
        }
    }
}

/// Index of the first block whose index is `x`, from position `from` on, or -1.
pub open spec fn block_with(blocks: Seq<TextBlock>, x: i32, from: int) -> int
    decreases blocks.len() - from,
{
    if from < 0 || from >= blocks.len() {
        -1
    } else if blocks[from].index == x {
        from
    } else {
        block_with(blocks, x, from + 1)
    }
}

/// The texts of the blocks with indices `sel[j..]`, in that order, while the running
/// token total stays within the budget (`used` tokens are spent already).
pub open spec fn parts_from(blocks: Seq<TextBlock>, sel: Seq<i32>, j: int, used: int) -> Seq<Seq<char>>
    decreases sel.len() - j,
{
    if j < 0 || j >= sel.len() {
        Seq::empty()
    } else {
        let k = block_with(blocks, sel[j], 0);
        if k < 0 {
            parts_from(blocks, sel, j + 1, used)
        } else {
            let t = estimated_tokens(blocks[k].text@);
            if used + t > DOC_PROFILE_MAX_TOKENS {
                Seq::empty()
            } else {
                seq![blocks[k].text@] + parts_from(blocks, sel, j + 1, used + t)
            }
        }
    }
}

/// The parts joined by blank lines.
pub open spec fn joined(ps: Seq<Seq<char>>) -> Seq<char>
    decreases ps.len(),
{
    if ps.len() == 0 {
        Seq::empty()
    } else if ps.len() == 1 {
        ps[0]
    } else {
        joined(ps.drop_last()) + "\n\n"@ + ps.last()
    }
}

/// The profiler's input for `text`: the whole text when its token estimate is within
/// the budget; otherwise the sampled paragraphs with the indices `sel` (increasing) that
/// fit the budget, joined by blank lines, or the first 4000 characters when none fits.
pub open spec fn profile_input(text: Seq<char>, blocks: Seq<TextBlock>, sel: Seq<i32>) -> Seq<char> {
    if estimated_tokens(text) <= DOC_PROFILE_MAX_TOKENS {
        text
    } else if parts_from(blocks, sel, 0, 0).len() == 0 {
        text.take(min_int(DOC_PROFILE_FALLBACK_CHARS as int, text.len() as int))
    } else {
        joined(parts_from(blocks, sel, 0, 0))
    }
}

/// `sel` holds, in increasing order and once each, the indices of the sampled blocks.
pub open spec fn sample_indices(blocks: Seq<TextBlock>, sel: Seq<i32>) -> bool {
    &&& increasing(sel)
    &&& forall|y: i32| sel.contains(y) <==> exists|p: int| #[trigger] sampled(blocks.len() as int, sample_step(blocks.len() as int), p) && blocks[p].index == y
}

fn push_text(out: &mut String, s: &str)
    ensures
        final(out)@ == old(out)@ + s@,
{
    let c = chars_of(s);
    let mut i: usize = 0;
    while i < c.len()
        invariant
            i <= c.len(),
            out@ == old(out)@ + c@.take(i as int),
        decreases c.len() - i,
    {
        push_char(out, c[i]);
        assert(c@.take(i + 1) =~= c@.take(i as int).push(c@[i as int]));
        i += 1;
    }
    assert(c@.take(c.len() as int) =~= c@);
}

/// What the document profiler is sent; see `profile_input`.
pub fn build_document_profile_input(text: &str, blocks: &[TextBlock]) -> (r: String)
    ensures
        exists|sel: Seq<i32>| sample_indices(blocks@, sel) && r@ == profile_input(text@, blocks@, sel),
{
    let n = blocks.len();
    let step: usize = if n > 6 && (n - 5) / 4 >= 1 { (n - 5) / 4 } else { 1 };
    let mut sel: Vec<i32> = Vec::new();
    let mut p: usize = 0;
    while p < n
        invariant
            n == blocks.len(),
            step == sample_step(n as int),
            step >= 1,
            p <= n,
            increasing(sel@),
            forall|y: i32| sel@.contains(y) <==> exists|q: int| 0 <= q < p && #[trigger] sampled(n as int, step as int, q) && blocks@[q].index == y,
        decreases n - p,
    {
        let take = p < 3 || (n > 6 && p >= 3 && p < n - 2 && (p - 3) % step == 0) || n < 2 || p >= n - 2;
        let ghost before = sel@;
        if take {
            insert_sorted(&mut sel, blocks[p].index);
        }
        proof {
            assert(take == sampled(n as int, step as int, p as int));
            assert forall|y: i32| sel@.contains(y) <==> exists|q: int| 0 <= q < p + 1 && #[trigger] sampled(n as int, step as int, q) && blocks@[q].index == y by {
                if sel@.contains(y) && !before.contains(y) {
                    assert(sampled(n as int, step as int, p as int) && blocks@[p as int].index == y);
                }
                if exists|q: int| 0 <= q < p + 1 && #[trigger] sampled(n as int, step as int, q) && blocks@[q].index == y {
                    let q = choose|q: int| 0 <= q < p + 1 && #[trigger] sampled(n as int, step as int, q) && blocks@[q].index == y;
                    if q < p {
                        assert(before.contains(y));
                    }
                }
            }
        }
        p += 1;
    }
    assert(sample_indices(blocks@, sel@));
    if estimate_tokens(text) <= DOC_PROFILE_MAX_TOKENS {
        return text.to_owned();
    }
    let mut out = String::new();
    let mut count: usize = 0;
    let ghost mut parts: Seq<Seq<char>> = Seq::empty();
    let mut used: i64 = 0;
    let mut j: usize = 0;
    let mut stopped = false;
    while j < sel.len() && !stopped
        invariant
            0 <= used <= DOC_PROFILE_MAX_TOKENS,
            j <= sel.len(),
            count <= j,
            count == parts.len(),
            out@ == joined(parts),
            stopped ==> parts == parts_from(blocks@, sel@, 0, 0),
            !stopped ==> parts + parts_from(blocks@, sel@, j as int, used as int) == parts_from(blocks@, sel@, 0, 0),
        decreases sel.len() - j,
    {
        let x = sel[j];
        let mut k: usize = 0;
        while k < blocks.len() && blocks[k].index != x
            invariant
                k <= blocks.len(),
                block_with(blocks@, x, 0) == block_with(blocks@, x, k as int),
            decreases blocks.len() - k,
        {
            k += 1;
        }
        if k < blocks.len() {
            let t = estimate_tokens(blocks[k].text.as_str());
            if used + (t as i64) > DOC_PROFILE_MAX_TOKENS as i64 {
                stopped = true;
                proof {
                    assert(parts_from(blocks@, sel@, j as int, used as int) == Seq::<Seq<char>>::empty());
                    assert(parts + Seq::<Seq<char>>::empty() =~= parts);
                }
            } else {
                let ghost old_parts = parts;
                if count > 0 {
                    push_text(&mut out, "\n\n");
                }
                push_text(&mut out, blocks[k].text.as_str());
                proof {
                    reveal_strlit("\n\n");
                    parts = parts.push(blocks@[k as int].text@);
                    assert(parts.drop_last() =~= old_parts);
                    assert(old_parts + parts_from(blocks@, sel@, j as int, used as int) =~= parts + parts_from(blocks@, sel@, j + 1, used + t));
                }
                count += 1;
                used = used + (t as i64);
            }
        } else {
            proof {
                assert(parts_from(blocks@, sel@, j as int, used as int) == parts_from(blocks@, sel@, j + 1, used as int));
            }
        }
        j += 1;
    }
    proof {
        if !stopped {
            assert(parts_from(blocks@, sel@, j as int, used as int) == Seq::<Seq<char>>::empty());
            assert(parts + Seq::<Seq<char>>::empty() =~= parts);
        }
    }
    if count == 0 {
        return head_chars(text, DOC_PROFILE_FALLBACK_CHARS);
    }
    out
}

} // verus!
