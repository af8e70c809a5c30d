//! Byte-to-token estimation for items no anchor has priced.
use vstd::prelude::*;

use crate::item::clamp_i64;
use crate::item::clamp_to_i64;
use crate::item::parts_view;
use crate::item::Category;
use crate::item::ContentPart;
use crate::item::PartMedia;
use crate::item::PartModel;

verus! {

/// Bytes per 100 tokens: the median of the seven non-reasoning densities measured, 4.64, held as
/// an integer so the estimate is exact arithmetic rather than a float.
pub const BYTES_PER_HUNDRED_TOKENS: i128 = 464;

/// The flat estimate for any image entry: a data URL tens of kilobytes long costs about a
/// paragraph. `detail: "original"` images are under-counted.
pub const IMAGE_TOKENS: i64 = 1_844;

/// 4.64 bytes per token.
pub open spec fn spec_text_tokens(bytes: usize) -> i64 {
    ((bytes as int) * 100 / 464) as i64
}

/// Encrypted reasoning costs about 1% of its byte size.
pub open spec fn spec_reasoning_tokens(bytes: usize) -> i64 {
    ((bytes as int) / 100) as i64
}

/// What one content entry is estimated at.
pub open spec fn part_tokens(part: PartModel) -> int {
    match part.media {
        PartMedia::Image => IMAGE_TOKENS as int,
        _ => spec_text_tokens(part.bytes) as int,
    }
}

/// The summed estimate of a list of entries.
pub open spec fn parts_tokens(parts: Seq<PartModel>) -> int
    decreases parts.len(),
{
    if parts.len() == 0 {
        0
    } else {
        parts_tokens(parts.drop_last()) + part_tokens(parts.last())
    }
}

/// The estimate of one item: reasoning by its own density, others per content entry.
pub open spec fn spec_item_tokens(category: Category, parts: Seq<PartModel>, bytes: usize) -> i64 {
    if category == Category::Reasoning {
        spec_reasoning_tokens(bytes)
    } else if parts.len() == 0 {
        spec_text_tokens(bytes)
    } else {
        clamp_i64(parts_tokens(parts))
    }
}

/// No entry's estimate is negative.
proof fn lemma_parts_tokens_nonnegative(parts: Seq<PartModel>)
    ensures
        parts_tokens(parts) >= 0,
    decreases parts.len(),
{
    if parts.len() > 0 {
        lemma_parts_tokens_nonnegative(parts.drop_last());
        lemma_text_tokens_bounds(parts.last().bytes);
    }
}

/// No item's estimate is negative.
pub proof fn lemma_item_tokens_nonnegative(category: Category, parts: Seq<PartModel>, bytes: usize)
    ensures
        spec_item_tokens(category, parts, bytes) >= 0,
{
    lemma_text_tokens_bounds(bytes);
    lemma_parts_tokens_nonnegative(parts);
}

proof fn lemma_text_tokens_bounds(bytes: usize)
    ensures
        0 <= (bytes as int) * 100 / 464 <= 0x4000_0000_0000_0000,
{
    assert((bytes as int) * 100 / 464 <= 0x4000_0000_0000_0000) by (nonlinear_arith)
        requires
            bytes <= 0xffff_ffff_ffff_ffff,
    ;
    assert(0 <= (bytes as int) * 100 / 464) by (nonlinear_arith)
        requires
            bytes >= 0,
    ;
}

/// 4.64 bytes per token, widened before the multiply so no size can wrap.
pub fn text_tokens(bytes: usize) -> (r: i64)
    ensures
        r == spec_text_tokens(bytes),
        0 <= r <= 0x4000_0000_0000_0000,
{
    proof {
        lemma_text_tokens_bounds(bytes);
    }
    let tokens: i128 = (bytes as i128) * 100 / BYTES_PER_HUNDRED_TOKENS;
    tokens as i64
}

/// Encrypted reasoning content costs about 1% of its byte size: the payload is an opaque blob the
/// provider stores rather than text the model reads. Single data point, 1,593 bytes -> 14 tokens.
pub fn reasoning_tokens(bytes: usize) -> (r: i64)
    ensures
        r == spec_reasoning_tokens(bytes),
        0 <= r,
{
    (bytes / 100) as i64
}

/// Summed per content entry so an image is not priced as prose.
pub fn item_tokens(category: Category, parts: &[ContentPart], bytes: usize) -> (r: i64)
    ensures
        r == spec_item_tokens(category, parts_view(parts@), bytes),
{
    if category == Category::Reasoning {
        return reasoning_tokens(bytes);
    }
    if parts.len() == 0 {
        return text_tokens(bytes);
    }
    let ghost all = parts_view(parts@);
    let mut total: i128 = 0;
    let mut i: usize = 0;
    while i < parts.len()
        invariant
            i <= parts.len(),
            all == parts_view(parts@),
            total as int == parts_tokens(all.take(i as int)),
            0 <= total <= (i as int) * 0x4000_0000_0000_0000,
        decreases parts.len() - i,
    {
        let part = &parts[i];
        let tokens = match part.media {
            PartMedia::Image => IMAGE_TOKENS,
            PartMedia::Text | PartMedia::Audio => text_tokens(part.bytes),
        };
        proof {
            assert(all.take(i + 1).drop_last() =~= all.take(i as int));
            assert(all[i as int] == part@);
        }
        total = total + tokens as i128;
        i = i + 1;
    }
    proof {
        assert(all.take(parts.len() as int) =~= all);
    }
    clamp_to_i64(total)
}

} // verus!
