use omfiles::array_read::{ArrayRead, ReadParameters, ReadState};
use omfiles::errors::OmFilesError;
use omfiles::opening::OpenAction;
use omfiles::reader_async::{create_variable_from_offset, OmFileReaderAsync};
use omfiles::variable::{OmDataType, OmOffsetSize, OmVariable};
use std::sync::Arc;

fn block(code: u8, value: usize) -> Vec<u8> {
    let mut block = vec![code, 0, 1, 0, 0, 0, 0, 0];
    block.resize(8 + value, 0);
    block.push(b'v');
    block
}

fn array_block(code: u8) -> Vec<u8> {
    let mut block = vec![code, 0, 1, 0, 0, 0, 0, 0];
    block.resize(40, 0);
    block.push(b'a');
    block
}

fn legacy() -> OmFileReaderAsync<u8> {
    let mut header = b"OM\x01".to_vec();
    header.resize(40, 0);
    let mut action = OmFileReaderAsync::new(Arc::new(77u8), 40);
    action = match action {
        OpenAction::Fetch(opening) => opening.resume(Ok(vec![0; 24])),
        other => other,
    };
    match action {
        OpenAction::Fetch(opening) => match opening.resume(Ok(header)) {
            OpenAction::Opened(reader) => reader,
            _ => panic!("not opened"),
        },
        _ => panic!("not fetched"),
    }
}

fn reader(bytes: Vec<u8>) -> OmFileReaderAsync<u8> {
    legacy().new_from_offset(OmOffsetSize::new(3, 4), Ok(bytes)).unwrap()
}

#[test]
fn a_reader_at_another_offset_shares_the_backend() {
    let first = legacy();
    let second = first.new_from_offset(OmOffsetSize::new(3, 4), Ok(block(9, 4))).unwrap();
    assert!(Arc::ptr_eq(&first.backend, &second.backend));
    assert_eq!(*second.backend, 77);
    assert_eq!(*second.offset_size(), OmOffsetSize::new(3, 4));
    assert!(second.variable().is_named("v"));
    let refused = first.new_from_offset(OmOffsetSize::new(3, 4), Ok(vec![1, 2]));
    assert!(matches!(refused, Err(OmFilesError::NotAnOmFile)));
    let failed = first.new_from_offset(OmOffsetSize::new(3, 4), Err(OmFilesError::FileTooSmall));
    assert!(matches!(failed, Err(OmFilesError::FileTooSmall)));
}

#[test]
fn metadata_is_made_from_a_reply() {
    assert!(create_variable_from_offset(Ok(block(9, 4))).unwrap().is_named("v"));
    assert!(matches!(create_variable_from_offset(Ok(vec![])), Err(OmFilesError::NotAnOmFile)));
    let failed = create_variable_from_offset(Err(OmFilesError::GenericError("down".to_string())));
    assert!(matches!(failed, Err(OmFilesError::GenericError(text)) if text == "down"));
}

#[test]
fn only_scalars_are_read_as_scalars() {
    for (code, value) in [(1, 1), (4, 2), (9, 4), (10, 8)] {
        let reader = reader(block(code, value));
        let scalar = reader.expect_scalar().unwrap();
        assert_eq!(scalar.variable().as_bytes(), reader.variable().as_bytes());
        assert_eq!(*scalar.offset_size(), OmOffsetSize::new(3, 4));
        assert!(Arc::ptr_eq(scalar.backend(), &reader.backend));
        assert!(matches!(reader.expect_array(), Err(OmFilesError::InvalidDataType)));
    }
    for code in [0, 22, 23] {
        let reader = reader(block(code, 0));
        assert!(matches!(reader.expect_scalar(), Err(OmFilesError::InvalidDataType)));
        assert!(matches!(reader.expect_array(), Err(OmFilesError::InvalidDataType)));
    }
}

#[test]
fn only_arrays_are_read_as_arrays() {
    for code in 12..=21 {
        let reader = reader(array_block(code));
        assert!(matches!(reader.expect_scalar(), Err(OmFilesError::InvalidDataType)));
        let array = reader.expect_array().unwrap();
        assert_eq!(array.io_size_max(), 65536);
        assert_eq!(array.io_size_merge(), 512);
        assert_eq!(array.variable().as_bytes(), reader.variable().as_bytes());
        assert_eq!(*array.offset_size(), OmOffsetSize::new(3, 4));
        assert!(Arc::ptr_eq(array.backend(), &reader.backend));
    }
    assert!(legacy().expect_array().is_ok());
}

#[test]
fn request_sizes_can_be_chosen() {
    let reader = reader(array_block(20));
    let array = reader.expect_array_with_io_sizes(1000, 10).unwrap();
    assert_eq!(array.io_size_max(), 1000);
    assert_eq!(array.io_size_merge(), 10);
}

#[test]
fn the_number_of_concurrent_requests_is_limited() {
    let reader = reader(array_block(20));
    let mut array = reader.expect_array().unwrap();
    let permits: Vec<_> = (0..16).map(|_| array.semaphore().try_acquire().unwrap()).collect();
    assert!(array.semaphore().try_acquire().is_none());
    drop(permits);
    array.set_max_concurrency(3);
    let permits: Vec<_> = (0..3).map(|_| array.semaphore().try_acquire().unwrap()).collect();
    assert!(array.semaphore().try_acquire().is_none());
    drop(permits);
    assert_eq!(array.io_size_max(), 65536);
}

#[test]
fn an_array_reader_leads_to_other_variables() {
    let reader = reader(array_block(20));
    let array = reader.expect_array().unwrap();
    let other = array.new_from_offset(OmOffsetSize::new(8, 9), Ok(block(9, 4))).unwrap();
    assert!(Arc::ptr_eq(&other.backend, &reader.backend));
    assert_eq!(*other.offset_size(), OmOffsetSize::new(8, 9));
    assert!(array.new_from_offset(OmOffsetSize::new(8, 9), Ok(vec![])).is_err());
}

fn parameters(read: &ArrayRead<Vec<u8>>) -> &ReadParameters {
    match read.state() {
        ReadState::Prepare(parameters) => parameters,
        _ => panic!("already started"),
    }
}

#[test]
fn a_region_is_read_into_an_array_of_its_size() {
    let reader = reader(array_block(20));
    let array = reader.expect_array_with_io_sizes(1000, 10).unwrap();
    let plan = array.read(&[0..4, 10..13, 5..5]);
    assert_eq!(plan.shape, vec![4usize, 3, 0]);
    let parameters = parameters(&plan.read);
    assert_eq!(parameters.dim_read, vec![0..4, 10..13, 5..5]);
    assert_eq!(parameters.cube_offset, vec![0, 0, 0]);
    assert_eq!(parameters.cube_dimension, vec![4, 3, 0]);
    assert_eq!((parameters.io_size_max, parameters.io_size_merge), (1000, 10));
}

#[test]
fn a_region_is_read_into_a_part_of_an_array() {
    let reader = reader(array_block(20));
    let array = reader.expect_array().unwrap();
    let read = array.read_into(&[2..4, 7..9], &[1, 3], &[10, 20]);
    let parameters = parameters(&read);
    assert_eq!(parameters.dim_read, vec![2..4, 7..9]);
    assert_eq!(parameters.cube_offset, vec![1, 3]);
    assert_eq!(parameters.cube_dimension, vec![10, 20]);
    assert_eq!((parameters.io_size_max, parameters.io_size_merge), (65536, 512));
}

#[test]
fn elements_are_of_the_type_of_the_variable() {
    let reader = reader(array_block(20));
    let array = reader.expect_array().unwrap();
    assert_eq!(array.check_element_type(OmDataType::FloatArray), Ok(()));
    for other in [OmDataType::DoubleArray, OmDataType::Int32Array, OmDataType::Float] {
        assert_eq!(array.check_element_type(other), Err(OmFilesError::InvalidDataType));
    }
    let legacy = legacy();
    let array = legacy.expect_array().unwrap();
    assert_eq!(array.check_element_type(OmDataType::FloatArray), Ok(()));
    assert_eq!(
        array.check_element_type(OmDataType::Int16Array),
        Err(OmFilesError::InvalidDataType)
    );
}

#[test]
fn parameters_are_for_as_many_dimensions_as_the_array_has() {
    let legacy = legacy();
    let array = legacy.expect_array().unwrap();
    assert_eq!(legacy.variable().number_of_dimensions(), 2);
    for (ranges, offset, dimension, fit) in [
        (2, 2, 2, true),
        (1, 2, 2, false),
        (2, 3, 2, false),
        (2, 2, 0, false),
        (3, 3, 3, false),
    ] {
        let read: ArrayRead<Vec<u8>> =
            array.read_into(&vec![0..1; ranges], &vec![0; offset], &vec![1; dimension]);
        assert_eq!(array.check_dimensions(parameters(&read)), fit);
    }
    let mut bytes = vec![20u8, 0, 0, 0, 0, 0, 0, 0];
    bytes.resize(40, 0);
    bytes[24] = 3;
    bytes.resize(40 + 48, 0);
    assert_eq!(OmVariable::new(bytes).unwrap().number_of_dimensions(), 3);
    assert_eq!(reader(block(9, 4)).variable().number_of_dimensions(), 0);
}
