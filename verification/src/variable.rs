//! The metadata block of a variable: its type, its name and where its children are.

use vstd::prelude::*;
use vstd::slice::slice_subrange;

use crate::errors::OmFilesError;
use crate::file_format::{MAGIC_1, MAGIC_2};
use crate::little_endian::{self, read_u16, read_u32, read_u64};

verus! {

/// A range of bytes in the file: where a metadata block starts and how long it is.
#[derive(Debug, Clone, Copy, PartialEq, Eq, Structural)]
pub struct OmOffsetSize {
    pub offset: u64,
    pub size: u64,
}

impl OmOffsetSize {
    pub fn new(offset: u64, size: u64) -> (range: OmOffsetSize)
        ensures
            range.offset == offset,
            range.size == size,
    {
        OmOffsetSize { offset, size }
    }
}

/// The type of the value that a variable holds.
#[derive(Debug, Clone, Copy, PartialEq, Eq, Structural)]
pub enum OmDataType {
    /// No value, only a name and children.
    NoValue,
    Int8,
    Uint8,
    Int16,
    Uint16,
    Int32,
    Uint32,
    Int64,
    Uint64,
    Float,
    Double,
    String,
    Int8Array,
    Uint8Array,
    Int16Array,
    Uint16Array,
    Int32Array,
    Uint32Array,
    Int64Array,
    Uint64Array,
    FloatArray,
    DoubleArray,
    StringArray,
}

impl OmDataType {
    /// The number that stands for the type in a metadata block.
    pub open spec fn spec_code(self) -> u8 {
        match self {
            OmDataType::NoValue => 0,
            OmDataType::Int8 => 1,
            OmDataType::Uint8 => 2,
            OmDataType::Int16 => 3,
            OmDataType::Uint16 => 4,
            OmDataType::Int32 => 5,
            OmDataType::Uint32 => 6,
            OmDataType::Int64 => 7,
            OmDataType::Uint64 => 8,
            OmDataType::Float => 9,
            OmDataType::Double => 10,
            OmDataType::String => 11,
            OmDataType::Int8Array => 12,
            OmDataType::Uint8Array => 13,
            OmDataType::Int16Array => 14,
            OmDataType::Uint16Array => 15,
            OmDataType::Int32Array => 16,
            OmDataType::Uint32Array => 17,
            OmDataType::Int64Array => 18,
            OmDataType::Uint64Array => 19,
            OmDataType::FloatArray => 20,
            OmDataType::DoubleArray => 21,
            OmDataType::StringArray => 22,
        }
    }

    /// The type that `code` stands for, if there is one.
    pub fn from_code(code: u8) -> (data_type: Option<OmDataType>)
        ensures
            match data_type {
                Some(known) => known.spec_code() == code,
                None => code > OmDataType::StringArray.spec_code(),
            },
    {
        match code {
            0 => Some(OmDataType::NoValue),
            1 => Some(OmDataType::Int8),
            2 => Some(OmDataType::Uint8),
            3 => Some(OmDataType::Int16),
            4 => Some(OmDataType::Uint16),
            5 => Some(OmDataType::Int32),
            6 => Some(OmDataType::Uint32),
            7 => Some(OmDataType::Int64),
            8 => Some(OmDataType::Uint64),
            9 => Some(OmDataType::Float),
            10 => Some(OmDataType::Double),
            11 => Some(OmDataType::String),
            12 => Some(OmDataType::Int8Array),
            13 => Some(OmDataType::Uint8Array),
            14 => Some(OmDataType::Int16Array),
            15 => Some(OmDataType::Uint16Array),
            16 => Some(OmDataType::Int32Array),
            17 => Some(OmDataType::Uint32Array),
            18 => Some(OmDataType::Int64Array),
            19 => Some(OmDataType::Uint64Array),
            20 => Some(OmDataType::FloatArray),
            21 => Some(OmDataType::DoubleArray),
            22 => Some(OmDataType::StringArray),
            _ => None,
        }
    }

    /// Holds for the types of a single value.
    pub open spec fn spec_is_scalar(self) -> bool {
        OmDataType::Int8.spec_code() <= self.spec_code() <= OmDataType::String.spec_code()
    }

    /// Holds for the types of a numeric array.
    pub open spec fn spec_is_array(self) -> bool {
        OmDataType::Int8Array.spec_code() <= self.spec_code()
            <= OmDataType::DoubleArray.spec_code()
    }

    /// Whether the variable holds a single value.
    pub fn is_scalar(self) -> (scalar: bool)
        ensures
            scalar == self.spec_is_scalar(),
    {
        matches!(self,
            OmDataType::Int8 | OmDataType::Uint8 | OmDataType::Int16 | OmDataType::Uint16
            | OmDataType::Int32 | OmDataType::Uint32 | OmDataType::Int64 | OmDataType::Uint64
            | OmDataType::Float | OmDataType::Double | OmDataType::String)
    }

    /// Whether the variable holds a numeric array.
    pub fn is_array(self) -> (array: bool)
        ensures
            array == self.spec_is_array(),
    {
        matches!(self,
            OmDataType::Int8Array | OmDataType::Uint8Array | OmDataType::Int16Array
            | OmDataType::Uint16Array | OmDataType::Int32Array | OmDataType::Uint32Array
            | OmDataType::Int64Array | OmDataType::Uint64Array | OmDataType::FloatArray
            | OmDataType::DoubleArray)
    }
}

/// How the bytes of a metadata block are arranged.
#[derive(Debug, Clone, Copy, PartialEq, Eq, Structural)]
pub enum MemoryLayout {
    /// The header of a legacy file, which describes one array of floats.
    Legacy,
    /// A numeric array with its dimensions.
    Array,
    /// A single value, or none.
    Scalar,
}

/// The size in bytes of the fixed part of an array block; a legacy block has the same size.
pub const ARRAY_FIXED_SIZE: usize = 40;

/// The size in bytes of the fixed part of every other block.
pub const SCALAR_FIXED_SIZE: usize = 8;

/// The arrangement of the block `block`.
pub open spec fn block_layout(block: Seq<u8>) -> MemoryLayout {
    if block[0] == MAGIC_1 && block[1] == MAGIC_2 && (block[2] == 1 || block[2] == 2) {
        MemoryLayout::Legacy
    } else if OmDataType::Int8Array.spec_code() <= block[0]
        <= OmDataType::DoubleArray.spec_code() {
        MemoryLayout::Array
    } else {
        MemoryLayout::Scalar
    }
}

/// The number that stands for the type of the variable.
pub open spec fn block_type_code(block: Seq<u8>) -> u8 {
    if block_layout(block) is Legacy {
        OmDataType::FloatArray.spec_code()
    } else {
        block[0]
    }
}

/// The variable holds a single value.
pub open spec fn block_is_scalar(block: Seq<u8>) -> bool {
    OmDataType::Int8.spec_code() <= block_type_code(block) <= OmDataType::String.spec_code()
}

/// The variable holds a numeric array.
pub open spec fn block_is_array(block: Seq<u8>) -> bool {
    OmDataType::Int8Array.spec_code() <= block_type_code(block)
        <= OmDataType::DoubleArray.spec_code()
}

/// The size in bytes of the part before the table of children.
pub open spec fn block_fixed_size(block: Seq<u8>) -> int {
    if block_layout(block) is Scalar {
        SCALAR_FIXED_SIZE as int
    } else {
        ARRAY_FIXED_SIZE as int
    }
}

/// How many children the variable has.
pub open spec fn block_children_count(block: Seq<u8>) -> nat {
    if block_layout(block) is Legacy {
        0
    } else {
        little_endian::le_at(block, 4, 4)
    }
}

/// How many dimensions the array has that the variable holds; none if it holds no array.
pub open spec fn block_dimension_count(block: Seq<u8>) -> nat {
    match block_layout(block) {
        MemoryLayout::Legacy => 2,
        MemoryLayout::Array => little_endian::le_at(block, 24, 8),
        MemoryLayout::Scalar => 0,
    }
}

/// Where the metadata of child number `index` is: first comes a table of all sizes, then one of
/// all offsets.
pub open spec fn block_child(block: Seq<u8>, index: int) -> OmOffsetSize {
    let sizes = block_fixed_size(block);
    let offsets = sizes + 8 * block_children_count(block);
    OmOffsetSize {
        offset: little_endian::le_at(block, offsets + 8 * index, 8) as u64,
        size: little_endian::le_at(block, sizes + 8 * index, 8) as u64,
    }
}

/// The position right after the table of children.
pub open spec fn block_payload(block: Seq<u8>) -> int {
    block_fixed_size(block) + 16 * block_children_count(block)
}

/// The size in bytes of what lies between the table of children and the name, or `None` if the
/// block has no name.
pub open spec fn block_payload_size(block: Seq<u8>) -> Option<nat> {
    if block_layout(block) is Legacy {
        None
    } else if block_layout(block) is Array {
        Some(16 * block_dimension_count(block))
    } else if block[0] == OmDataType::NoValue.spec_code() {
        Some(0)
    } else if block[0] <= OmDataType::Uint8.spec_code() {
        Some(1)
    } else if block[0] <= OmDataType::Uint16.spec_code() {
        Some(2)
    } else if block[0] <= OmDataType::Uint32.spec_code() || block[0]
        == OmDataType::Float.spec_code() {
        Some(4)
    } else if block[0] <= OmDataType::Double.spec_code() {
        Some(8)
    } else if block[0] == OmDataType::String.spec_code() {
        Some(8 + little_endian::le_at(block, block_payload(block), 8))
    } else {
        None
    }
}

/// The name of the variable, as bytes.
pub open spec fn block_name(block: Seq<u8>) -> Seq<u8> {
    match block_payload_size(block) {
        Some(size) => {
            let start = block_payload(block) + size;
            block.subrange(start, start + little_endian::le_at(block, 2, 2))
        },
        None => Seq::empty(),
    }
}

/// The block is long enough for all that it says it holds.
pub open spec fn is_complete(block: Seq<u8>) -> bool {
    &&& block.len() >= SCALAR_FIXED_SIZE
    &&& block.len() >= block_fixed_size(block)
    &&& block.len() >= block_payload(block)
    &&& block_layout(block) is Scalar && block[0] == OmDataType::String.spec_code()
        ==> block.len() >= block_payload(block) + 8
    &&& block_payload_size(block) matches Some(size) ==> block.len() >= block_payload(block) + size
        + little_endian::le_at(block, 2, 2)
}

/// The metadata block of a variable, complete as [`is_complete`] says.
#[derive(Debug)]
pub struct OmVariable {
    block: Vec<u8>,
}

impl View for OmVariable {
    type V = Seq<u8>;

    closed spec fn view(&self) -> Seq<u8> {
        self.block@
    }
}

/// The arrangement of a block of which the first bytes are there.
fn layout_of(block: &[u8]) -> (layout: MemoryLayout)
    requires
        block@.len() >= SCALAR_FIXED_SIZE,
    ensures
        layout == block_layout(block@),
{
    if block[0] == MAGIC_1 && block[1] == MAGIC_2 && (block[2] == 1 || block[2] == 2) {
        MemoryLayout::Legacy
    } else if 12 <= block[0] && block[0] <= 21 {
        MemoryLayout::Array
    } else {
        MemoryLayout::Scalar
    }
}

/// The number of children of a block of which the first bytes are there.
fn children_count_of(block: &[u8]) -> (count: u32)
    requires
        block@.len() >= SCALAR_FIXED_SIZE,
    ensures
        count == block_children_count(block@),
{
    match layout_of(block) {
        MemoryLayout::Legacy => 0,
        MemoryLayout::Array | MemoryLayout::Scalar => read_u32(block, 4),
    }
}

/// The position right after the table of children.
fn payload_of(block: &[u8]) -> (position: u64)
    requires
        block@.len() >= SCALAR_FIXED_SIZE,
    ensures
        position == block_payload(block@),
{
    let fixed: u64 = match layout_of(block) {
        MemoryLayout::Legacy | MemoryLayout::Array => 40,
        MemoryLayout::Scalar => 8,
    };
    fixed + 16 * (children_count_of(block) as u64)
}

/// What lies between the table of children and the name.
fn payload_size_of(block: &[u8]) -> (size: Option<u128>)
    requires
        block@.len() >= SCALAR_FIXED_SIZE,
        block@.len() >= block_fixed_size(block@),
        block_layout(block@) is Scalar && block@[0] == OmDataType::String.spec_code()
            ==> block@.len() >= block_payload(block@) + 8,
    ensures
        match (size, block_payload_size(block@)) {
            (Some(computed), Some(stated)) => computed == stated,
            (None, None) => true,
            _ => false,
        },
        size matches Some(computed) ==> computed <= 16 * u64::MAX,
{
    match layout_of(block) {
        MemoryLayout::Legacy => None,
        MemoryLayout::Array => Some(16 * (read_u64(block, 24) as u128)),
        MemoryLayout::Scalar => match block[0] {
            0 => Some(0),
            1 | 2 => Some(1),
            3 | 4 => Some(2),
            5 | 6 | 9 => Some(4),
            7 | 8 | 10 => Some(8),
            11 => {
                assert(block@.len() <= block.len());
                Some(8 + read_u64(block, payload_of(block) as usize) as u128)
            },
            _ => None,
        },
    }
}

/// Whether the block is long enough for all that it says it holds.
fn check_complete(block: &[u8]) -> (complete: bool)
    ensures
        complete == is_complete(block@),
{
    let length: u128 = block.len() as u128;
    if block.len() < SCALAR_FIXED_SIZE {
        return false;
    }
    let layout = layout_of(block);
    if !matches!(layout, MemoryLayout::Scalar) && block.len() < ARRAY_FIXED_SIZE {
        return false;
    }
    let payload: u128 = payload_of(block) as u128;
    if length < payload {
        return false;
    }
    if matches!(layout, MemoryLayout::Scalar) && block[0] == 11 && length < payload + 8 {
        return false;
    }
    match payload_size_of(block) {
        Some(size) => length >= payload + size + read_u16(block, 2) as u128,
        None => true,
    }
}

impl OmVariable {
    #[verifier::type_invariant]
    spec fn complete(self) -> bool {
        is_complete(self.block@)
    }

    /// Takes a metadata block as it was read from the file. A block that ends before all that it
    /// says it holds is refused.
    pub fn new(block: Vec<u8>) -> (variable: Result<OmVariable, OmFilesError>)
        ensures
            match variable {
                Ok(taken) => is_complete(block@) && taken@ == block@,
                Err(error) => !is_complete(block@) && error == OmFilesError::NotAnOmFile,
            },
    {
        if check_complete(block.as_slice()) {
            Ok(OmVariable { block })
        } else {
            Err(OmFilesError::NotAnOmFile)
        }
    }

    /// The bytes of the block.
    pub fn as_bytes(&self) -> (bytes: &[u8])
        ensures
            bytes@ == self@,
            is_complete(self@),
    {
        proof {
            use_type_invariant(self);
        }
        self.block.as_slice()
    }

    /// The type of the variable, or `None` if the block names no known type.
    pub fn data_type(&self) -> (data_type: Option<OmDataType>)
        ensures
            match data_type {
                Some(known) => known.spec_code() == block_type_code(self@),
                None => block_type_code(self@) > OmDataType::StringArray.spec_code(),
            },
    {
        let block = self.as_bytes();
        match layout_of(block) {
            MemoryLayout::Legacy => Some(OmDataType::FloatArray),
            MemoryLayout::Array | MemoryLayout::Scalar => OmDataType::from_code(block[0]),
        }
    }

    /// How many children the variable has.
    pub fn number_of_children(&self) -> (count: u32)
        ensures
            count == block_children_count(self@),
    {
        children_count_of(self.as_bytes())
    }

    /// How many dimensions the array has that the variable holds; none if it holds no array.
    pub fn number_of_dimensions(&self) -> (count: u64)
        ensures
            count == block_dimension_count(self@),
    {
        let block = self.as_bytes();
        match layout_of(block) {
            MemoryLayout::Legacy => 2,
            MemoryLayout::Array => read_u64(block, 24),
            MemoryLayout::Scalar => 0,
        }
    }

    /// Where the metadata of child number `index` is, or `None` if there is no such child.
    pub fn child(&self, index: u32) -> (location: Option<OmOffsetSize>)
        ensures
            location == (if index < block_children_count(self@) {
                Some(block_child(self@, index as int))
            } else {
                None
            }),
    {
        let block = self.as_bytes();
        let count: u32 = children_count_of(block);
        if index >= count {
            return None;
        }
        let fixed: usize = match layout_of(block) {
            MemoryLayout::Legacy | MemoryLayout::Array => ARRAY_FIXED_SIZE,
            MemoryLayout::Scalar => SCALAR_FIXED_SIZE,
        };
        assert(block@.len() <= block.len());
        let size: u64 = read_u64(block, fixed + 8 * index as usize);
        let offset: u64 = read_u64(block, fixed + 8 * count as usize + 8 * index as usize);
        Some(OmOffsetSize::new(offset, size))
    }

    /// The name of the variable, as bytes; empty if it has none.
    pub fn name(&self) -> (name: &[u8])
        ensures
            name@ == block_name(self@),
    {
        let block = self.as_bytes();
        match payload_size_of(block) {
            Some(size) => {
                assert(block@.len() <= block.len());
                let start: usize = payload_of(block) as usize + size as usize;
                slice_subrange(block, start, start + read_u16(block, 2) as usize)
            },
            None => {
                assert(block@.subrange(0, 0) =~= Seq::<u8>::empty());
                slice_subrange(block, 0, 0)
            },
        }
    }

    /// Whether the variable is called `name`.
    pub fn is_named(&self, name: &str) -> (named: bool)
        ensures
            named == (block_name(self@) == vstd::utf8::encode_utf8(name@)),
    {
        let own = self.name();
        let other = name.as_bytes();
        if own.len() != other.len() {
            return false;
        }
        let mut at: usize = 0;
        while at < own.len()
            invariant
                at <= own@.len(),
                own@.len() == other@.len(),
                own@ == block_name(self@),
                other@ == vstd::utf8::encode_utf8(name@),
                forall|i: int| 0 <= i < at ==> own@[i] == other@[i],
            decreases own@.len() - at,
        {
            if own[at] != other[at] {
                return false;
            }
            at = at + 1;
        }
        assert(own@ =~= other@);
        true
    }
}

} // verus!
