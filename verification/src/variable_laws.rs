//! What holds of every metadata block: what was written into it is read back.

use vstd::prelude::*;

use crate::children::{self, ChildEntry};
use crate::format_laws;
use crate::little_endian;
use crate::variable::{self, OmDataType, OmOffsetSize};

verus! {

/// The number that stands for each type, and which types are those of a single value and of a
/// numeric array.
pub proof fn law_types(data_type: OmDataType)
    ensures
        data_type.spec_code() == (match data_type {
            OmDataType::NoValue => 0u8,
            OmDataType::Int8 => 1,
            OmDataType::Uint8 => 2,
            OmDataType::Int16 => 3,
            OmDataType::Uint16 => 4,
            OmDataType::Int32 => 5,
            OmDataType::Uint32 => 6,
            OmDataType::Int64 => 7,
            OmDataType::Uint64 => 8,
            OmDataType::Float => 9,
            OmDataType::Double => 10,
            OmDataType::String => 11,
            OmDataType::Int8Array => 12,
            OmDataType::Uint8Array => 13,
            OmDataType::Int16Array => 14,
            OmDataType::Uint16Array => 15,
            OmDataType::Int32Array => 16,
            OmDataType::Uint32Array => 17,
            OmDataType::Int64Array => 18,
            OmDataType::Uint64Array => 19,
            OmDataType::FloatArray => 20,
            OmDataType::DoubleArray => 21,
            OmDataType::StringArray => 22,
        }),
        data_type.spec_is_scalar() <==> data_type is Int8 || data_type is Uint8 || data_type is Int16
            || data_type is Uint16 || data_type is Int32 || data_type is Uint32 || data_type is Int64
            || data_type is Uint64 || data_type is Float || data_type is Double
            || data_type is String,
        data_type.spec_is_array() <==> data_type is Int8Array || data_type is Uint8Array
            || data_type is Int16Array || data_type is Uint16Array || data_type is Int32Array
            || data_type is Uint32Array || data_type is Int64Array || data_type is Uint64Array
            || data_type is FloatArray || data_type is DoubleArray,
{
}

/// No two types have the same number.
pub proof fn law_types_differ(a: OmDataType, b: OmDataType)
    requires
        a.spec_code() == b.spec_code(),
    ensures
        a == b,
{
}

/// Whether a variable holds a single value or an array depends on its type alone, and a type that
/// is not known is neither.
pub proof fn law_type_decides(block: Seq<u8>, data_type: OmDataType)
    ensures
        data_type.spec_code() == variable::block_type_code(block) ==> {
            &&& variable::block_is_scalar(block) == data_type.spec_is_scalar()
            &&& variable::block_is_array(block) == data_type.spec_is_array()
        },
        variable::block_type_code(block) > 22 ==> !variable::block_is_scalar(block)
            && !variable::block_is_array(block),
{
}

/// Two variables of the same type are both arrays or both not, and both single values or both not,
/// whatever else their metadata says.
pub proof fn law_same_type(a: Seq<u8>, b: Seq<u8>)
    requires
        variable::block_type_code(a) == variable::block_type_code(b),
    ensures
        variable::block_is_array(a) == variable::block_is_array(b),
        variable::block_is_scalar(a) == variable::block_is_scalar(b),
{
}

/// The block is the header of a legacy file.
pub open spec fn is_legacy_header(block: Seq<u8>) -> bool {
    block[0] == 0x4f && block[1] == 0x4d && (block[2] == 1 || block[2] == 2)
}

/// A legacy header of 40 bytes or more is complete. It describes an array of floats with two
/// dimensions, without a name and without children.
pub proof fn law_legacy_block(block: Seq<u8>)
    requires
        block.len() >= 3,
        is_legacy_header(block),
    ensures
        variable::is_complete(block) <==> block.len() >= 40,
        variable::block_type_code(block) == 20,
        variable::block_is_array(block),
        !variable::block_is_scalar(block),
        variable::block_children_count(block) == 0,
        variable::block_dimension_count(block) == 2,
        variable::block_name(block) == Seq::<u8>::empty(),
{
}

/// What the bytes of any other block say: its type is the first byte, the number of its children
/// is in the four bytes from 4 on and, for an array, the number of dimensions is in the eight bytes
/// from 24 on.
pub proof fn law_first_bytes(block: Seq<u8>)
    requires
        variable::is_complete(block),
        !is_legacy_header(block),
    ensures
        variable::block_type_code(block) == block[0],
        variable::block_is_scalar(block) <==> 1 <= block[0] <= 11,
        variable::block_is_array(block) <==> 12 <= block[0] <= 21,
        variable::block_children_count(block) == block[4] + 0x100 * block[5] + 0x1_0000 * block[6]
            + 0x100_0000 * block[7],
        12 <= block[0] <= 21 ==> variable::block_dimension_count(block) == block[24] + 0x100
            * block[25] + 0x1_0000 * block[26] + 0x100_0000 * block[27] + 0x1_0000_0000 * block[28]
            + 0x100_0000_0000 * block[29] + 0x1_0000_0000_0000 * block[30] + 0x100_0000_0000_0000
            * block[31],
        !(12 <= block[0] <= 21) ==> variable::block_dimension_count(block) == 0,
{
    format_laws::law_number_is_the_sum_of_its_bytes(block, 4);
    format_laws::law_number_is_the_sum_of_its_bytes(block, 24);
}

/// Numbers of eight bytes each, one after the other.
pub open spec fn numbers(values: Seq<u64>) -> Seq<u8> {
    Seq::new(
        (8 * values.len()) as nat,
        |p: int| format_laws::le_bytes(values[p / 8] as nat, 8)[p % 8],
    )
}

/// The table of children: all sizes, then all offsets.
pub open spec fn child_table(children: Seq<OmOffsetSize>) -> Seq<u8> {
    numbers(children.map_values(|child: OmOffsetSize| child.size)) + numbers(
        children.map_values(|child: OmOffsetSize| child.offset),
    )
}

/// The eight bytes that every block starts with: type, compression, length of the name and number
/// of children.
pub open spec fn first_bytes(code: u8, compression: u8, name_size: nat, count: nat) -> Seq<u8> {
    seq![code, compression] + format_laws::le_bytes(name_size, 2) + format_laws::le_bytes(count, 4)
}

/// The block that is written for a variable without an array.
pub open spec fn scalar_block(
    code: u8,
    compression: u8,
    children: Seq<OmOffsetSize>,
    value: Seq<u8>,
    name: Seq<u8>,
) -> Seq<u8> {
    first_bytes(code, compression, name.len(), children.len()) + child_table(children) + value
        + name
}

/// The bytes of a value of the type with the number `code`. A string starts with its length.
pub open spec fn is_value(code: u8, value: Seq<u8>) -> bool {
    if code == 0 {
        value.len() == 0
    } else if code == 1 || code == 2 {
        value.len() == 1
    } else if code == 3 || code == 4 {
        value.len() == 2
    } else if code == 5 || code == 6 || code == 9 {
        value.len() == 4
    } else if code == 7 || code == 8 || code == 10 {
        value.len() == 8
    } else {
        &&& code == 11
        &&& 8 <= value.len() <= u64::MAX
        &&& value.take(8) == format_laws::le_bytes((value.len() - 8) as nat, 8)
    }
}

/// What the metadata of an array says besides type, name and children.
pub struct ArrayMetadata {
    pub lut_size: u64,
    pub lut_offset: u64,
    /// Eight bytes: the factor and the offset by which values are scaled.
    pub scales: Seq<u8>,
    pub dimensions: Seq<u64>,
    pub chunks: Seq<u64>,
}

impl ArrayMetadata {
    /// The parts have the lengths that they have in a file.
    pub open spec fn well_formed(self) -> bool {
        &&& self.scales.len() == 8
        &&& self.dimensions.len() == self.chunks.len()
        &&& self.dimensions.len() <= u64::MAX
    }

    /// The bytes between the first eight and the table of children.
    pub open spec fn fixed(self) -> Seq<u8> {
        numbers(seq![self.lut_size, self.lut_offset, self.dimensions.len() as u64]) + self.scales
    }
}

/// The block that is written for a variable with an array.
pub open spec fn array_block(
    code: u8,
    compression: u8,
    children: Seq<OmOffsetSize>,
    array: ArrayMetadata,
    name: Seq<u8>,
) -> Seq<u8> {
    first_bytes(code, compression, name.len(), children.len()) + array.fixed() + child_table(
        children,
    ) + numbers(array.dimensions) + numbers(array.chunks) + name
}

/// The block is taken for a variable of the type `code` with these children and this name.
pub open spec fn is_read_as(
    block: Seq<u8>,
    code: u8,
    children: Seq<OmOffsetSize>,
    name: Seq<u8>,
) -> bool {
    &&& variable::is_complete(block)
    &&& variable::block_type_code(block) == code
    &&& variable::block_children_count(block) == children.len()
    &&& forall|i: int|
        0 <= i < children.len() ==> #[trigger] variable::block_child(block, i) == children[i]
    &&& children::all_children(block) == Seq::new(
        children.len(),
        |i: int|
            ChildEntry {
                index: i as u32,
                offset: children[i].offset,
                size: children[i].size,
            },
    )
    &&& variable::block_name(block) == name
}

/// Bytes that stand at a known place are read the same way in a longer sequence.
proof fn lemma_number_at(before: Seq<u8>, values: Seq<u64>, after: Seq<u8>, i: int)
    requires
        0 <= i < values.len(),
    ensures
        little_endian::le_at(before + numbers(values) + after, before.len() + 8 * i, 8)
            == values[i],
{
    let data = before + numbers(values) + after;
    let at = before.len() + 8 * i;
    let bytes = format_laws::le_bytes(values[i] as nat, 8);
    format_laws::lemma_le_value(values[i], 8);
    assert forall|q: int| 0 <= q < 8 implies data.subrange(at, at + 8)[q] == bytes[q] by {
        assert((8 * i + q) / 8 == i && (8 * i + q) % 8 == q);
        assert(data[at + q] == numbers(values)[8 * i + q]);
    }
    assert(data.subrange(at, at + 8) =~= bytes);
}

/// The first eight bytes are read back.
proof fn lemma_first_bytes(
    code: u8,
    compression: u8,
    name_size: nat,
    count: nat,
    rest: Seq<u8>,
)
    requires
        name_size <= u16::MAX,
        count <= u32::MAX,
    ensures
        first_bytes(code, compression, name_size, count).len() == 8,
        ({
            let block = first_bytes(code, compression, name_size, count) + rest;
            &&& block[0] == code
            &&& block[1] == compression
            &&& block[2] == name_size % 256
            &&& little_endian::le_at(block, 2, 2) == name_size
            &&& little_endian::le_at(block, 4, 4) == count
        }),
{
    let block = first_bytes(code, compression, name_size, count) + rest;
    let start = seq![code, compression];
    let length = format_laws::le_bytes(name_size, 2);
    let number = format_laws::le_bytes(count, 4);
    format_laws::lemma_le_value(name_size as u64, 2);
    format_laws::lemma_le_value(count as u64, 4);
    assert(length[0] == name_size % 256);
    assert(block[2] == length[0]);
    format_laws::law_number_is_read_back(start, name_size as u64, 2, number + rest);
    assert(block =~= start + length + (number + rest));
    format_laws::law_number_is_read_back(start + length, count as u64, 4, rest);
    assert(block =~= (start + length) + number + rest);
}

/// The table of children is read back.
proof fn lemma_child_table(
    before: Seq<u8>,
    children: Seq<OmOffsetSize>,
    after: Seq<u8>,
    i: int,
)
    requires
        0 <= i < children.len(),
    ensures
        ({
            let block = before + child_table(children) + after;
            &&& little_endian::le_at(block, before.len() + 8 * i, 8) == children[i].size
            &&& little_endian::le_at(block, before.len() + 8 * children.len() + 8 * i, 8)
                == children[i].offset
        }),
{
    let block = before + child_table(children) + after;
    let sizes = children.map_values(|child: OmOffsetSize| child.size);
    let offsets = children.map_values(|child: OmOffsetSize| child.offset);
    lemma_number_at(before, sizes, numbers(offsets) + after, i);
    assert(block =~= before + numbers(sizes) + (numbers(offsets) + after));
    lemma_number_at(before + numbers(sizes), offsets, after, i);
    assert(block =~= (before + numbers(sizes)) + numbers(offsets) + after);
}

/// Once the children are read back one by one, they are read back as a list.
proof fn lemma_all_children(block: Seq<u8>, children: Seq<OmOffsetSize>)
    requires
        variable::block_children_count(block) == children.len(),
        forall|i: int|
            0 <= i < children.len() ==> #[trigger] variable::block_child(block, i) == children[i],
    ensures
        children::all_children(block) == Seq::new(
            children.len(),
            |i: int|
                ChildEntry {
                    index: i as u32,
                    offset: children[i].offset,
                    size: children[i].size,
                },
        ),
{
    let listed = children::all_children(block);
    assert forall|i: int| 0 <= i < listed.len() implies #[trigger] listed[i] == (ChildEntry {
        index: i as u32,
        offset: children[i].offset,
        size: children[i].size,
    }) by {
        assert(variable::block_child(block, i) == children[i]);
    }
    assert(listed =~= Seq::new(
        children.len(),
        |i: int|
            ChildEntry {
                index: i as u32,
                offset: children[i].offset,
                size: children[i].size,
            },
    ));
}

/// The block that was written for a variable without an array is read back, whatever follows it:
/// its type, its children and its name. It is a single value unless it has no value.
pub proof fn law_scalar_is_read_back(
    code: u8,
    compression: u8,
    children: Seq<OmOffsetSize>,
    value: Seq<u8>,
    name: Seq<u8>,
    after: Seq<u8>,
)
    requires
        is_value(code, value),
        children.len() <= u32::MAX,
        name.len() <= u16::MAX,
    ensures
        ({
            let block = scalar_block(code, compression, children, value, name) + after;
            &&& is_read_as(block, code, children, name)
            &&& variable::block_is_scalar(block) <==> code > 0
            &&& !variable::block_is_array(block)
            &&& variable::block_dimension_count(block) == 0
        }),
{
    let first = first_bytes(code, compression, name.len(), children.len());
    let table = child_table(children);
    let block = scalar_block(code, compression, children, value, name) + after;
    lemma_first_bytes(
        code,
        compression,
        name.len(),
        children.len(),
        table + value + name + after,
    );
    assert(block =~= first + (table + value + name + after));
    assert(table.len() == 16 * children.len());
    let payload = 8 + 16 * children.len();
    assert(variable::block_payload(block) == payload);
    assert forall|i: int| 0 <= i < children.len() implies #[trigger] variable::block_child(block, i)
        == children[i] by {
        lemma_child_table(first, children, value + name + after, i);
        assert(block =~= first + table + (value + name + after));
    }
    lemma_all_children(block, children);
    if code == 11 {
        let length = (value.len() - 8) as u64;
        format_laws::law_number_is_read_back(
            first + table,
            length,
            8,
            value.skip(8) + name + after,
        );
        assert(value =~= value.take(8) + value.skip(8));
        assert(block =~= (first + table) + format_laws::le_bytes(length as nat, 8) + (value.skip(8)
            + name + after));
        assert(little_endian::le_at(block, payload as int, 8) == length);
    }
    assert(variable::block_payload_size(block) == Some(value.len()));
    let start = payload + value.len();
    assert(block.subrange(start as int, (start + name.len()) as int) =~= name);
}

/// The block that was written for a variable with an array is read back, whatever follows it: its
/// type, its children, its name and the number of its dimensions.
pub proof fn law_array_is_read_back(
    code: u8,
    compression: u8,
    children: Seq<OmOffsetSize>,
    array: ArrayMetadata,
    name: Seq<u8>,
    after: Seq<u8>,
)
    requires
        12 <= code <= 21,
        array.well_formed(),
        children.len() <= u32::MAX,
        name.len() <= u16::MAX,
    ensures
        ({
            let block = array_block(code, compression, children, array, name) + after;
            &&& is_read_as(block, code, children, name)
            &&& !variable::block_is_scalar(block)
            &&& variable::block_is_array(block)
            &&& variable::block_dimension_count(block) == array.dimensions.len()
        }),
{
    let first = first_bytes(code, compression, name.len(), children.len());
    let table = child_table(children);
    let sizes = numbers(array.dimensions) + numbers(array.chunks);
    let block = array_block(code, compression, children, array, name) + after;
    let stored = seq![array.lut_size, array.lut_offset, array.dimensions.len() as u64];
    lemma_first_bytes(
        code,
        compression,
        name.len(),
        children.len(),
        array.fixed() + table + sizes + name + after,
    );
    assert(block =~= first + (array.fixed() + table + sizes + name + after));
    lemma_number_at(first, stored, array.scales + table + sizes + name + after, 2);
    assert(block =~= first + numbers(stored) + (array.scales + table + sizes + name + after));
    assert(little_endian::le_at(block, 24, 8) == array.dimensions.len());
    assert(table.len() == 16 * children.len());
    assert(sizes.len() == 16 * array.dimensions.len());
    let payload = 40 + 16 * children.len();
    assert(variable::block_payload(block) == payload);
    assert forall|i: int| 0 <= i < children.len() implies #[trigger] variable::block_child(block, i)
        == children[i] by {
        lemma_child_table(first + array.fixed(), children, sizes + name + after, i);
        assert(block =~= (first + array.fixed()) + table + (sizes + name + after));
    }
    lemma_all_children(block, children);
    let start = payload + sizes.len();
    assert(block.subrange(start as int, (start + name.len()) as int) =~= name);
}

/// A block whose type is not known, or is that of an array of strings, has children but no name; it
/// is neither a single value nor a numeric array.
pub proof fn law_other_type_is_read_back(
    code: u8,
    compression: u8,
    name_size: u16,
    children: Seq<OmOffsetSize>,
    after: Seq<u8>,
)
    requires
        code >= 22,
        children.len() <= u32::MAX,
        !(code == 0x4f && compression == 0x4d && 1 <= name_size % 256 <= 2),
    ensures
        ({
            let block = first_bytes(code, compression, name_size as nat, children.len())
                + child_table(children) + after;
            &&& is_read_as(block, code, children, Seq::empty())
            &&& !variable::block_is_scalar(block)
            &&& !variable::block_is_array(block)
            &&& variable::block_dimension_count(block) == 0
        }),
{
    let first = first_bytes(code, compression, name_size as nat, children.len());
    let table = child_table(children);
    let block = first + table + after;
    lemma_first_bytes(code, compression, name_size as nat, children.len(), table + after);
    assert(block =~= first + (table + after));
    assert(table.len() == 16 * children.len());
    assert forall|i: int| 0 <= i < children.len() implies #[trigger] variable::block_child(block, i)
        == children[i] by {
        lemma_child_table(first, children, after, i);
    }
    lemma_all_children(block, children);
}

/// A number is read the same way where the end of the sequence is cut off after it.
proof fn lemma_cut_number(block: Seq<u8>, length: int, at: int, width: int)
    requires
        0 <= at,
        0 <= width,
        at + width <= length <= block.len(),
    ensures
        little_endian::le_at(block.take(length), at, width) == little_endian::le_at(
            block,
            at,
            width,
        ),
{
    assert(block.take(length).subrange(at, at + width) =~= block.subrange(at, at + width));
}

/// A block that ends with its name is not complete once its end is cut off.
proof fn lemma_cut_block(block: Seq<u8>, length: int)
    requires
        variable::is_complete(block),
        variable::block_payload_size(block) matches Some(size) && block.len()
            == variable::block_payload(block) + size + little_endian::le_at(block, 2, 2),
        0 <= length < block.len(),
    ensures
        !variable::is_complete(block.take(length)),
{
    let cut = block.take(length);
    if length >= 8 {
        lemma_cut_number(block, length, 2, 2);
        lemma_cut_number(block, length, 4, 4);
        assert(variable::block_layout(cut) == variable::block_layout(block));
        if length >= variable::block_fixed_size(block) {
            if variable::block_fixed_size(block) == 40 {
                lemma_cut_number(block, length, 24, 8);
            }
            assert(variable::block_payload(cut) == variable::block_payload(block));
            if length >= variable::block_payload(block) + 8 {
                lemma_cut_number(block, length, variable::block_payload(block), 8);
            }
        }
    }
}

/// The block that was written for a variable without an array is refused once its end is cut off.
pub proof fn law_cut_scalar_is_refused(
    code: u8,
    compression: u8,
    children: Seq<OmOffsetSize>,
    value: Seq<u8>,
    name: Seq<u8>,
    length: int,
)
    requires
        is_value(code, value),
        children.len() <= u32::MAX,
        name.len() <= u16::MAX,
        0 <= length < scalar_block(code, compression, children, value, name).len(),
    ensures
        !variable::is_complete(
            scalar_block(code, compression, children, value, name).take(length),
        ),
{
    let block = scalar_block(code, compression, children, value, name);
    let first = first_bytes(code, compression, name.len(), children.len());
    let table = child_table(children);
    law_scalar_is_read_back(code, compression, children, value, name, Seq::empty());
    assert(block + Seq::<u8>::empty() =~= block);
    lemma_first_bytes(code, compression, name.len(), children.len(), table + value + name);
    assert(block =~= first + (table + value + name));
    if code == 11 {
        let size = (value.len() - 8) as u64;
        format_laws::law_number_is_read_back(first + table, size, 8, value.skip(8) + name);
        assert(value =~= value.take(8) + value.skip(8));
        assert(block =~= (first + table) + format_laws::le_bytes(size as nat, 8) + (value.skip(8)
            + name));
    }
    assert(variable::block_payload_size(block) == Some(value.len()));
    lemma_cut_block(block, length);
}

/// The block that was written for a variable with an array is refused once its end is cut off.
pub proof fn law_cut_array_is_refused(
    code: u8,
    compression: u8,
    children: Seq<OmOffsetSize>,
    array: ArrayMetadata,
    name: Seq<u8>,
    length: int,
)
    requires
        12 <= code <= 21,
        array.well_formed(),
        children.len() <= u32::MAX,
        name.len() <= u16::MAX,
        0 <= length < array_block(code, compression, children, array, name).len(),
    ensures
        !variable::is_complete(
            array_block(code, compression, children, array, name).take(length),
        ),
{
    let block = array_block(code, compression, children, array, name);
    let first = first_bytes(code, compression, name.len(), children.len());
    let rest = array.fixed() + child_table(children) + numbers(array.dimensions) + numbers(
        array.chunks,
    ) + name;
    law_array_is_read_back(code, compression, children, array, name, Seq::empty());
    assert(block + Seq::<u8>::empty() =~= block);
    lemma_first_bytes(code, compression, name.len(), children.len(), rest);
    assert(block =~= first + rest);
    lemma_cut_block(block, length);
}

/// A block whose type is not known, or is that of an array of strings, is refused once the end of
/// its table of children is cut off.
pub proof fn law_cut_other_type_is_refused(
    code: u8,
    compression: u8,
    name_size: u16,
    children: Seq<OmOffsetSize>,
    length: int,
)
    requires
        code >= 22,
        children.len() <= u32::MAX,
        !(code == 0x4f && compression == 0x4d && 1 <= name_size % 256 <= 2),
        0 <= length < 8 + child_table(children).len(),
    ensures
        !variable::is_complete(
            (first_bytes(code, compression, name_size as nat, children.len()) + child_table(
                children,
            )).take(length),
        ),
{
    let first = first_bytes(code, compression, name_size as nat, children.len());
    let block = first + child_table(children);
    lemma_first_bytes(code, compression, name_size as nat, children.len(), child_table(children));
    assert(child_table(children).len() == 16 * children.len());
    if length >= 8 {
        lemma_cut_number(block, length, 4, 4);
        assert(variable::block_layout(block.take(length)) == variable::block_layout(block));
    }
}

} // verus!
