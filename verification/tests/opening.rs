use omfiles::errors::OmFilesError;
use omfiles::opening::{OpenAction, Opening};
use omfiles::reader_async::OmFileReaderAsync;
use omfiles::variable::{OmDataType, OmOffsetSize};
use std::sync::Arc;

fn named_block(name: &str) -> Vec<u8> {
    let mut block = vec![0u8, 4];
    block.extend_from_slice(&(name.len() as u16).to_le_bytes());
    block.extend_from_slice(&0u32.to_le_bytes());
    block.extend_from_slice(name.as_bytes());
    block
}

fn trailer(offset: u64, size: u64) -> Vec<u8> {
    let mut trailer = vec![b'O', b'M', 3, 0, 0, 0, 0, 0];
    trailer.extend_from_slice(&offset.to_le_bytes());
    trailer.extend_from_slice(&size.to_le_bytes());
    trailer
}

fn serve(file: &[u8], request: OmOffsetSize) -> Result<Vec<u8>, OmFilesError> {
    let end = request.offset + request.size;
    if end <= file.len() as u64 {
        Ok(file[request.offset as usize..end as usize].to_vec())
    } else {
        Err(OmFilesError::GenericError("out of range".to_string()))
    }
}

fn open(file: &[u8]) -> (Result<OmFileReaderAsync<String>, OmFilesError>, Vec<OmOffsetSize>) {
    let mut requests = Vec::new();
    let mut action = OmFileReaderAsync::new(Arc::new("backend".to_string()), file.len());
    loop {
        match action {
            OpenAction::Fetch(opening) => {
                let request = opening.request();
                requests.push(request);
                action = opening.resume(serve(file, request));
            }
            OpenAction::Opened(reader) => return (Ok(reader), requests),
            OpenAction::Failed(error) => return (Err(error), requests),
        }
    }
}

fn first_fetch(file_size: usize) -> Opening<()> {
    match OmFileReaderAsync::new(Arc::new(()), file_size) {
        OpenAction::Fetch(opening) => opening,
        _ => panic!("nothing to fetch"),
    }
}

#[test]
fn a_current_file_is_opened_at_its_root() {
    let mut file = b"OM\x03".to_vec();
    let root = named_block("root");
    file.extend_from_slice(&root);
    file.extend_from_slice(&trailer(3, root.len() as u64));
    let (reader, requests) = open(&file);
    let reader = reader.unwrap();
    assert!(reader.variable().is_named("root"));
    assert_eq!(*reader.offset_size(), OmOffsetSize::new(3, 12));
    assert_eq!(*reader.backend, "backend".to_string());
    assert_eq!(requests, vec![OmOffsetSize::new(15, 24), OmOffsetSize::new(3, 12)]);
}

#[test]
fn a_current_file_smaller_than_a_header_is_opened() {
    let mut file = named_block("r");
    file.extend_from_slice(&trailer(0, 9));
    assert!(file.len() < 40);
    let (reader, _) = open(&file);
    assert!(reader.unwrap().variable().is_named("r"));
}

#[test]
fn a_legacy_file_is_opened_at_its_header() {
    let mut file = vec![b'O', b'M', 2, 0];
    file.resize(100, 7);
    let (reader, requests) = open(&file);
    let reader = reader.unwrap();
    assert_eq!(reader.variable().as_bytes(), &file[..40]);
    assert_eq!(reader.variable().data_type(), Some(OmDataType::FloatArray));
    assert_eq!(*reader.offset_size(), OmOffsetSize::new(0, 40));
    assert_eq!(requests, vec![OmOffsetSize::new(76, 24), OmOffsetSize::new(0, 40)]);
}

#[test]
fn a_file_too_small_for_anything_is_refused() {
    for size in 0..40 {
        let (reader, requests) = open(&vec![b'O'; size]);
        assert!(matches!(reader, Err(OmFilesError::FileTooSmall)));
        assert_eq!(requests.len(), if size < 24 { 0 } else { 1 });
    }
}

#[test]
fn other_files_are_refused() {
    let (reader, _) = open(&vec![0; 40]);
    assert!(matches!(reader, Err(OmFilesError::NotAnOmFile)));
    let mut headed = b"OM\x03".to_vec();
    headed.resize(100, 0);
    let (reader, _) = open(&headed);
    assert!(matches!(reader, Err(OmFilesError::NotAnOmFile)));
}

#[test]
fn a_root_beyond_the_end_is_not_taken_for_a_legacy_file() {
    let mut file = vec![b'O', b'M', 1, 0];
    file.resize(40, 0);
    file.extend_from_slice(&trailer(1000, 20));
    let (reader, requests) = open(&file);
    assert!(matches!(reader, Err(OmFilesError::GenericError(text)) if text == "out of range"));
    assert_eq!(requests.len(), 2);
}

#[test]
fn an_incomplete_root_is_refused() {
    let mut file = named_block("root");
    file.extend_from_slice(&trailer(0, 11));
    let (reader, _) = open(&file);
    assert!(matches!(reader, Err(OmFilesError::NotAnOmFile)));
}

#[test]
fn a_failed_fetch_ends_the_opening() {
    let failed = first_fetch(100).resume(Err(OmFilesError::GenericError("down".to_string())));
    assert!(matches!(failed, OpenAction::Failed(OmFilesError::GenericError(text)) if text == "down"));
}

#[test]
fn what_the_trailer_says_decides() {
    let found = first_fetch(100).after_trailer(Ok(OmOffsetSize::new(5, 6)));
    assert!(matches!(found, OpenAction::Fetch(opening) if opening.request() == OmOffsetSize::new(5, 6)));
    let none = first_fetch(100).after_trailer(Err(OmFilesError::NotAnOmFile));
    assert!(matches!(none, OpenAction::Fetch(opening) if opening.request() == OmOffsetSize::new(0, 40)));
    let small = first_fetch(30).after_trailer(Err(OmFilesError::NotAnOmFile));
    assert!(matches!(small, OpenAction::Failed(OmFilesError::FileTooSmall)));
    let other = first_fetch(100).after_trailer(Err(OmFilesError::InvalidDataType));
    assert!(matches!(other, OpenAction::Failed(OmFilesError::InvalidDataType)));
}

#[test]
fn the_location_of_the_root_leads_back_to_it() {
    let root = named_block("root");
    let mut current = root.clone();
    current.extend_from_slice(&trailer(0, root.len() as u64));
    let mut legacy = b"OM\x02".to_vec();
    legacy.resize(50, 7);
    for file in [current, legacy] {
        let (reader, _) = open(&file);
        let reader = reader.unwrap();
        let location = *reader.offset_size();
        let again = reader.new_from_offset(location, serve(&file, location)).unwrap();
        assert_eq!(again.variable().as_bytes(), reader.variable().as_bytes());
        assert_eq!(again.offset_size(), reader.offset_size());
        assert!(Arc::ptr_eq(&again.backend, &reader.backend));
    }
}
