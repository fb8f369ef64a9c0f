use omfiles::errors::OmFilesError;
use omfiles::file_format::{header_type, process_trailer, HeaderType, HEADER_SIZE, TRAILER_SIZE};
use omfiles::little_endian::{read_u16, read_u32, read_u64};
use omfiles::variable::{OmDataType, OmOffsetSize, OmVariable};

fn scalar_block(code: u8, name: &str, children: &[(u64, u64)], value: &[u8]) -> Vec<u8> {
    let mut block = vec![code, 4];
    block.extend_from_slice(&(name.len() as u16).to_le_bytes());
    block.extend_from_slice(&(children.len() as u32).to_le_bytes());
    for (_, size) in children {
        block.extend_from_slice(&size.to_le_bytes());
    }
    for (offset, _) in children {
        block.extend_from_slice(&offset.to_le_bytes());
    }
    block.extend_from_slice(value);
    block.extend_from_slice(name.as_bytes());
    block
}

fn array_block(code: u8, name: &str, children: &[(u64, u64)], dims: &[(u64, u64)]) -> Vec<u8> {
    let mut block = vec![code, 0];
    block.extend_from_slice(&(name.len() as u16).to_le_bytes());
    block.extend_from_slice(&(children.len() as u32).to_le_bytes());
    block.extend_from_slice(&7u64.to_le_bytes());
    block.extend_from_slice(&9u64.to_le_bytes());
    block.extend_from_slice(&(dims.len() as u64).to_le_bytes());
    block.extend_from_slice(&1f32.to_le_bytes());
    block.extend_from_slice(&0f32.to_le_bytes());
    for (_, size) in children {
        block.extend_from_slice(&size.to_le_bytes());
    }
    for (offset, _) in children {
        block.extend_from_slice(&offset.to_le_bytes());
    }
    for (dimension, _) in dims {
        block.extend_from_slice(&dimension.to_le_bytes());
    }
    for (_, chunk) in dims {
        block.extend_from_slice(&chunk.to_le_bytes());
    }
    block.extend_from_slice(name.as_bytes());
    block
}

fn legacy_header(version: u8) -> Vec<u8> {
    let mut header = vec![b'O', b'M', version, 0];
    header.resize(40, 0);
    header
}

#[test]
fn numbers_are_read_least_significant_byte_first() {
    let data = [0xff, 0x01, 0x02, 0x03, 0x04, 0x05, 0x06, 0x07, 0x88];
    assert_eq!(read_u16(&data, 1), 0x0201);
    assert_eq!(read_u32(&data, 1), 0x0403_0201);
    assert_eq!(read_u64(&data, 1), 0x8807_0605_0403_0201);
    assert_eq!(read_u64(&[0xff; 8], 0), u64::MAX);
    assert_eq!(read_u32(&[0xff; 4], 0), u32::MAX);
    assert_eq!(read_u16(&[0xff; 2], 0), u16::MAX);
}

#[test]
fn the_header_tells_the_format() {
    assert_eq!(HEADER_SIZE, 40);
    assert_eq!(header_type(b"OM\x01"), HeaderType::Legacy);
    assert_eq!(header_type(b"OM\x02"), HeaderType::Legacy);
    assert_eq!(header_type(b"OM\x03"), HeaderType::ReadTrailer);
    assert_eq!(header_type(b"OM\x00"), HeaderType::Invalid);
    assert_eq!(header_type(b"OM\x04"), HeaderType::Invalid);
    assert_eq!(header_type(b"XM\x01"), HeaderType::Invalid);
    assert_eq!(header_type(b"OX\x01"), HeaderType::Invalid);
    assert_eq!(header_type(b"OM"), HeaderType::Invalid);
}

#[test]
fn the_trailer_points_to_the_root() {
    assert_eq!(TRAILER_SIZE, 24);
    let mut trailer = vec![b'O', b'M', 3, 0, 0, 0, 0, 0];
    trailer.extend_from_slice(&0x0102_0304_0506_0708u64.to_le_bytes());
    trailer.extend_from_slice(&90u64.to_le_bytes());
    assert_eq!(process_trailer(&trailer), Ok(OmOffsetSize::new(0x0102_0304_0506_0708, 90)));
    let mut other = trailer.clone();
    other[2] = 2;
    assert_eq!(process_trailer(&other), Err(OmFilesError::NotAnOmFile));
    other = trailer.clone();
    other[0] = b'X';
    assert_eq!(process_trailer(&other), Err(OmFilesError::NotAnOmFile));
    assert_eq!(process_trailer(&trailer[..23]), Err(OmFilesError::NotAnOmFile));
}

#[test]
fn a_block_without_value_has_a_name_and_children() {
    let block = scalar_block(0, "root", &[(100, 20), (300, 40)], &[]);
    let variable = OmVariable::new(block.clone()).unwrap();
    assert_eq!(variable.as_bytes(), &block[..]);
    assert_eq!(variable.data_type(), Some(OmDataType::NoValue));
    assert_eq!(variable.number_of_children(), 2);
    assert_eq!(variable.child(0), Some(OmOffsetSize::new(100, 20)));
    assert_eq!(variable.child(1), Some(OmOffsetSize::new(300, 40)));
    assert_eq!(variable.child(2), None);
    assert_eq!(variable.name(), b"root");
    assert!(variable.is_named("root"));
    assert!(!variable.is_named("Root"));
    assert!(!variable.is_named("roo"));
    assert!(!variable.is_named(""));
}

#[test]
fn the_name_follows_the_value() {
    let widths = [(1u8, 1usize), (2, 1), (3, 2), (4, 2), (5, 4), (6, 4), (7, 8), (8, 8), (9, 4), (10, 8)];
    for (code, width) in widths {
        let block = scalar_block(code, "wind", &[(1, 2)], &vec![0xee; width]);
        let variable = OmVariable::new(block).unwrap();
        assert_eq!(variable.name(), b"wind");
        assert!(variable.data_type().unwrap().is_scalar());
        assert!(!variable.data_type().unwrap().is_array());
    }
}

#[test]
fn the_name_follows_a_text_value() {
    let mut value = 3u64.to_le_bytes().to_vec();
    value.extend_from_slice(b"abc");
    let block = scalar_block(11, "Zürich", &[], &value);
    let variable = OmVariable::new(block).unwrap();
    assert_eq!(variable.data_type(), Some(OmDataType::String));
    assert!(variable.is_named("Zürich"));
}

#[test]
fn the_name_of_an_array_follows_its_dimensions() {
    let block = array_block(20, "temperature_2m", &[(5, 6)], &[(10, 2), (20, 4)]);
    let variable = OmVariable::new(block).unwrap();
    assert_eq!(variable.data_type(), Some(OmDataType::FloatArray));
    assert!(variable.data_type().unwrap().is_array());
    assert!(!variable.data_type().unwrap().is_scalar());
    assert_eq!(variable.number_of_children(), 1);
    assert_eq!(variable.child(0), Some(OmOffsetSize::new(5, 6)));
    assert!(variable.is_named("temperature_2m"));
}

#[test]
fn a_legacy_header_is_an_unnamed_array_of_floats() {
    for version in [1, 2] {
        let variable = OmVariable::new(legacy_header(version)).unwrap();
        assert_eq!(variable.data_type(), Some(OmDataType::FloatArray));
        assert_eq!(variable.number_of_children(), 0);
        assert_eq!(variable.child(0), None);
        assert!(variable.is_named(""));
    }
}

#[test]
fn unknown_types_have_no_name() {
    let variable = OmVariable::new(scalar_block(23, "x", &[], &[])).unwrap();
    assert_eq!(variable.data_type(), None);
    assert_eq!(variable.name(), b"");
    let variable = OmVariable::new(scalar_block(22, "x", &[], &[])).unwrap();
    assert_eq!(variable.data_type(), Some(OmDataType::StringArray));
    assert_eq!(variable.name(), b"");
    assert!(!OmDataType::StringArray.is_array());
    assert!(!OmDataType::StringArray.is_scalar());
    assert!(!OmDataType::NoValue.is_scalar());
}

#[test]
fn every_code_has_its_type() {
    assert_eq!(OmDataType::from_code(1), Some(OmDataType::Int8));
    assert_eq!(OmDataType::from_code(12), Some(OmDataType::Int8Array));
    assert_eq!(OmDataType::from_code(21), Some(OmDataType::DoubleArray));
    assert_eq!(OmDataType::from_code(255), None);
    for code in 0..=22u8 {
        assert_eq!(OmDataType::from_code(code).unwrap() as u8, code);
    }
}

#[test]
fn blocks_that_are_cut_short_are_refused() {
    let mut text = 3u64.to_le_bytes().to_vec();
    text.extend_from_slice(b"abc");
    let blocks = vec![
        scalar_block(0, "root", &[(100, 20), (300, 40)], &[]),
        scalar_block(9, "wind", &[], &[0; 4]),
        scalar_block(11, "city", &[(1, 2)], &text),
        array_block(20, "temperature_2m", &[(5, 6)], &[(10, 2), (20, 4)]),
        legacy_header(1),
    ];
    for block in blocks {
        assert!(OmVariable::new(block.clone()).is_ok());
        for length in 0..block.len() {
            let cut = OmVariable::new(block[..length].to_vec());
            assert!(matches!(cut, Err(OmFilesError::NotAnOmFile)));
        }
    }
    let mut many = vec![0u8, 0, 0, 0, 0xff, 0xff, 0xff, 0xff];
    assert!(OmVariable::new(many.clone()).is_err());
    many[0] = 20;
    many.resize(40, 0xff);
    assert!(OmVariable::new(many).is_err());
}

#[test]
fn errors_describe_themselves() {
    assert_eq!(OmFilesError::FileTooSmall.message(), "File too small");
    assert_eq!(OmFilesError::NotAnOmFile.message(), "Not an OM file");
    assert_eq!(OmFilesError::InvalidDataType.message(), "Invalid data type");
    assert_eq!(OmFilesError::ArrayNotContiguous.message(), "Array not contiguous");
    assert_eq!(OmFilesError::TaskError("lost".to_string()).message(), "Task error: lost");
    assert_eq!(OmFilesError::GenericError("lost".to_string()).message(), "lost");
}
