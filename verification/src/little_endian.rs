//! Unsigned integers stored with their least significant byte first.

use vstd::prelude::*;

verus! {

/// The number whose base 256 digits are `bytes`, least significant digit first.
pub open spec fn le_value(bytes: Seq<u8>) -> nat
    decreases bytes.len(),
{
    if bytes.len() == 0 {
        0
    } else {
        bytes[0] as nat + 256 * le_value(bytes.drop_first())
    }
}

/// The number stored in the `width` bytes of `data` that start at `at`.
pub open spec fn le_at(data: Seq<u8>, at: int, width: int) -> nat {
    le_value(data.subrange(at, at + width))
}

proof fn lemma_le_step(data: Seq<u8>, at: int, width: int)
    requires
        0 <= at,
        0 < width,
        at + width <= data.len(),
    ensures
        le_at(data, at, width) == data[at] + 256 * le_at(data, at + 1, width - 1),
{
    assert(data.subrange(at, at + width).drop_first() =~= data.subrange(at + 1, at + width));
}

/// Four bytes hold a number below 2 to the power of 32.
pub proof fn lemma_le_bound(bytes: Seq<u8>)
    ensures
        bytes.len() == 4 ==> le_value(bytes) <= u32::MAX,
{
    reveal_with_fuel(le_value, 5);
}

/// Reads the two bytes at `at` as a number.
pub fn read_u16(data: &[u8], at: usize) -> (value: u16)
    requires
        at + 2 <= data@.len(),
    ensures
        value == le_at(data@, at as int, 2),
{
    proof {
        lemma_le_step(data@, at as int, 2);
        lemma_le_step(data@, at + 1, 1);
    }
    data[at] as u16 + 256 * (data[at + 1] as u16)
}

/// Reads the four bytes at `at` as a number.
pub fn read_u32(data: &[u8], at: usize) -> (value: u32)
    requires
        at + 4 <= data@.len(),
    ensures
        value == le_at(data@, at as int, 4),
{
    proof {
        lemma_le_step(data@, at as int, 4);
        lemma_le_step(data@, at + 1, 3);
        lemma_le_step(data@, at + 2, 2);
        lemma_le_step(data@, at + 3, 1);
    }
    data[at] as u32 + 256 * (data[at + 1] as u32 + 256 * (data[at + 2] as u32 + 256 * (data[at
        + 3] as u32)))
}

/// Reads the eight bytes at `at` as a number.
pub fn read_u64(data: &[u8], at: usize) -> (value: u64)
    requires
        at + 8 <= data@.len(),
    ensures
        value == le_at(data@, at as int, 8),
{
    assert(at + 8 <= data.len());
    let low: u32 = read_u32(data, at);
    let high: u32 = read_u32(data, at + 4);
    proof {
        lemma_le_step(data@, at as int, 8);
        lemma_le_step(data@, at + 1, 7);
        lemma_le_step(data@, at + 2, 6);
        lemma_le_step(data@, at + 3, 5);
        lemma_le_step(data@, at as int, 4);
        lemma_le_step(data@, at + 1, 3);
        lemma_le_step(data@, at + 2, 2);
        lemma_le_step(data@, at + 3, 1);
        assert(le_at(data@, at as int, 8) == low + 0x1_0000_0000 * high);
    }
    low as u64 + 0x1_0000_0000 * (high as u64)
}

} // verus!
