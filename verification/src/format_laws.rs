//! What holds of every number, trailer and header: what was written is read back.

use vstd::arithmetic::power;
use vstd::prelude::*;

use crate::file_format::{self, HeaderType};
use crate::little_endian;
use crate::variable::OmOffsetSize;

verus! {

/// The number `value` in `width` bytes, the least significant byte first.
pub open spec fn le_bytes(value: nat, width: nat) -> Seq<u8>
    decreases width,
{
    if width == 0 {
        Seq::empty()
    } else {
        seq![(value % 256) as u8] + le_bytes(value / 256, (width - 1) as nat)
    }
}

/// There are as many bytes as were asked for.
proof fn lemma_le_bytes_len(value: nat, width: nat)
    ensures
        le_bytes(value, width).len() == width,
    decreases width,
{
    if width > 0 {
        lemma_le_bytes_len(value / 256, (width - 1) as nat);
    }
}

proof fn lemma_le_read_back(value: nat, width: nat)
    requires
        value < power::pow(256, width),
    ensures
        little_endian::le_value(le_bytes(value, width)) == value,
    decreases width,
{
    reveal(power::pow);
    if width > 0 {
        let rest = le_bytes(value / 256, (width - 1) as nat);
        let bytes = le_bytes(value, width);
        assert(power::pow(256, width) == 256 * power::pow(256, (width - 1) as nat));
        lemma_le_read_back(value / 256, (width - 1) as nat);
        assert(bytes.drop_first() =~= rest);
    }
}

/// A number that was written in as many bytes as it needs is read back.
pub(crate) proof fn lemma_le_value(value: u64, width: nat)
    requires
        width == 2 || width == 4 || width == 8,
        width == 2 ==> value <= u16::MAX,
        width == 4 ==> value <= u32::MAX,
    ensures
        le_bytes(value as nat, width).len() == width,
        little_endian::le_value(le_bytes(value as nat, width)) == value,
{
    reveal_with_fuel(power::pow, 9);
    assert(power::pow(256, 2) == 0x1_0000);
    assert(power::pow(256, 4) == 0x1_0000_0000);
    assert(power::pow(256, 8) == 0x1_0000_0000_0000_0000);
    lemma_le_bytes_len(value as nat, width);
    lemma_le_read_back(value as nat, width);
}

/// A number that was written with the least significant byte first is read back, wherever it stands
/// among other bytes.
pub proof fn law_number_is_read_back(before: Seq<u8>, value: u64, width: nat, after: Seq<u8>)
    requires
        width == 2 || width == 4 || width == 8,
        width == 2 ==> value <= u16::MAX,
        width == 4 ==> value <= u32::MAX,
    ensures
        little_endian::le_at(
            before + le_bytes(value as nat, width) + after,
            before.len() as int,
            width as int,
        ) == value,
{
    lemma_le_value(value, width);
    let data = before + le_bytes(value as nat, width) + after;
    assert(data.subrange(before.len() as int, (before.len() + width) as int) =~= le_bytes(
        value as nat,
        width,
    ));
}

/// A number is the sum of its bytes, each 256 times as much as the byte before.
pub proof fn law_number_is_the_sum_of_its_bytes(data: Seq<u8>, at: int)
    requires
        0 <= at,
    ensures
        at + 2 <= data.len() ==> little_endian::le_at(data, at, 2) == data[at] + 0x100 * data[at
            + 1],
        at + 4 <= data.len() ==> little_endian::le_at(data, at, 4) == data[at] + 0x100 * data[at
            + 1] + 0x1_0000 * data[at + 2] + 0x100_0000 * data[at + 3],
        at + 8 <= data.len() ==> little_endian::le_at(data, at, 8) == data[at] + 0x100 * data[at
            + 1] + 0x1_0000 * data[at + 2] + 0x100_0000 * data[at + 3] + 0x1_0000_0000 * data[at
            + 4] + 0x100_0000_0000 * data[at + 5] + 0x1_0000_0000_0000 * data[at + 6]
            + 0x100_0000_0000_0000 * data[at + 7],
{
    if at + 2 <= data.len() {
        lemma_le_digits(data.subrange(at, at + 2));
    }
    if at + 4 <= data.len() {
        lemma_le_digits(data.subrange(at, at + 4));
    }
    if at + 8 <= data.len() {
        lemma_le_digits(data.subrange(at, at + 8));
    }
}

proof fn lemma_le_digits(bytes: Seq<u8>)
    ensures
        bytes.len() == 2 ==> little_endian::le_value(bytes) == bytes[0] + 0x100 * bytes[1],
        bytes.len() == 4 ==> little_endian::le_value(bytes) == bytes[0] + 0x100 * bytes[1]
            + 0x1_0000 * bytes[2] + 0x100_0000 * bytes[3],
        bytes.len() == 8 ==> little_endian::le_value(bytes) == bytes[0] + 0x100 * bytes[1]
            + 0x1_0000 * bytes[2] + 0x100_0000 * bytes[3] + 0x1_0000_0000 * bytes[4]
            + 0x100_0000_0000 * bytes[5] + 0x1_0000_0000_0000 * bytes[6] + 0x100_0000_0000_0000
            * bytes[7],
    decreases bytes.len(),
{
    reveal_with_fuel(little_endian::le_value, 9);
}

/// The trailer that is written for a root variable at `offset` with `size` bytes of metadata;
/// `reserved` are five bytes without a meaning.
pub open spec fn trailer_bytes(offset: u64, size: u64, reserved: Seq<u8>) -> Seq<u8> {
    seq![0x4fu8, 0x4du8, 3u8] + reserved + le_bytes(offset as nat, 8) + le_bytes(size as nat, 8)
}

/// A trailer that was written for a location is read back as that location, whatever follows it.
pub proof fn law_trailer_is_read_back(offset: u64, size: u64, reserved: Seq<u8>, after: Seq<u8>)
    requires
        reserved.len() == 5,
    ensures
        trailer_bytes(offset, size, reserved).len() == 24,
        file_format::spec_trailer(trailer_bytes(offset, size, reserved) + after) == Some(
            OmOffsetSize { offset, size },
        ),
{
    let magic = seq![0x4fu8, 0x4du8, 3u8] + reserved;
    let first = le_bytes(offset as nat, 8);
    let second = le_bytes(size as nat, 8);
    let bytes = trailer_bytes(offset, size, reserved) + after;
    lemma_le_value(offset, 8);
    lemma_le_value(size, 8);
    law_number_is_read_back(magic, offset, 8, second + after);
    law_number_is_read_back(magic + first, size, 8, after);
    assert(bytes =~= magic + first + (second + after));
    assert(bytes =~= magic + first + second + after);
    assert(bytes[0] == 0x4f && bytes[1] == 0x4d && bytes[2] == 3);
}

/// Bytes are a trailer if and only if there are at least 24 of them and they start with `OM` and
/// the number of the current version; then they say where the root variable is.
pub proof fn law_what_is_a_trailer(bytes: Seq<u8>)
    ensures
        file_format::spec_trailer(bytes) is Some <==> bytes.len() >= 24 && bytes[0] == 0x4f
            && bytes[1] == 0x4d && bytes[2] == 3,
        file_format::spec_trailer(bytes) matches Some(root) ==> root.offset == bytes[8] + 0x100
            * bytes[9] + 0x1_0000 * bytes[10] + 0x100_0000 * bytes[11] + 0x1_0000_0000 * bytes[12]
            + 0x100_0000_0000 * bytes[13] + 0x1_0000_0000_0000 * bytes[14] + 0x100_0000_0000_0000
            * bytes[15] && root.size == bytes[16] + 0x100 * bytes[17] + 0x1_0000 * bytes[18]
            + 0x100_0000 * bytes[19] + 0x1_0000_0000 * bytes[20] + 0x100_0000_0000 * bytes[21]
            + 0x1_0000_0000_0000 * bytes[22] + 0x100_0000_0000_0000 * bytes[23],
{
    law_number_is_the_sum_of_its_bytes(bytes, 8);
    law_number_is_the_sum_of_its_bytes(bytes, 16);
}

/// What the first bytes of a file say: the letters `OM` and a version, of which the first two are
/// legacy versions and the third is the current one.
pub proof fn law_what_a_header_says(bytes: Seq<u8>)
    ensures
        file_format::spec_header_type(bytes) == HeaderType::Legacy <==> bytes.len() >= 3 && bytes[0]
            == 0x4f && bytes[1] == 0x4d && 1 <= bytes[2] <= 2,
        file_format::spec_header_type(bytes) == HeaderType::ReadTrailer <==> bytes.len() >= 3
            && bytes[0] == 0x4f && bytes[1] == 0x4d && bytes[2] == 3,
        file_format::HEADER_SIZE == 40,
        file_format::TRAILER_SIZE == 24,
{
}

} // verus!
