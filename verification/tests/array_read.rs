use omfiles::array_read::{
    ArrayRead, ChunkRange, ChunkRead, ReadEvent, ReadParameters, ReadState,
};
use omfiles::errors::OmFilesError;
use omfiles::variable::OmOffsetSize;

fn chunk(offset: u64, count: u64, first: u64) -> ChunkRead {
    ChunkRead {
        offset,
        count,
        chunks: ChunkRange { lower_bound: first, upper_bound: first + 1 },
    }
}

fn lost() -> OmFilesError {
    OmFilesError::GenericError("lost".to_string())
}

fn start() -> ArrayRead<&'static str> {
    ArrayRead::new(ReadParameters {
        dim_read: vec![0..5],
        cube_offset: vec![0],
        cube_dimension: vec![5],
        io_size_max: 65536,
        io_size_merge: 512,
    })
}

fn run(events: Vec<ReadEvent<&'static str>>) -> ArrayRead<&'static str> {
    let mut read = start();
    for event in events {
        read = read.step(event);
    }
    read
}

fn until_chunks(chunks: Vec<ChunkRead>) -> Vec<ReadEvent<&'static str>> {
    vec![
        ReadEvent::Prepared(Ok(())),
        ReadEvent::IndexRead(Some(OmOffsetSize::new(10, 20))),
        ReadEvent::IndexData(Ok("index")),
        ReadEvent::ChunkList(Ok(chunks)),
    ]
}

#[test]
fn a_read_goes_through_its_steps() {
    let read = start();
    assert!(matches!(read.state(), ReadState::Prepare(_)));
    let read = read.step(ReadEvent::Prepared(Ok(())));
    assert!(matches!(read.state(), ReadState::NextIndex));
    let read = read.step(ReadEvent::IndexRead(Some(OmOffsetSize::new(10, 20))));
    assert!(matches!(read.state(), ReadState::FetchIndex(block) if *block == OmOffsetSize::new(10, 20)));
    let read = read.step(ReadEvent::IndexData(Ok("index")));
    assert!(matches!(read.state(), ReadState::ListChunks(data) if *data == "index"));
    let chunks = vec![chunk(100, 5, 0), chunk(200, 6, 1)];
    let read = read.step(ReadEvent::ChunkList(Ok(chunks.clone())));
    assert!(matches!(read.state(), ReadState::FetchChunks { reads, data } if *reads == chunks && data.is_empty()));
    let read = read.step(ReadEvent::ChunkData(Ok("a")));
    assert!(matches!(read.state(), ReadState::FetchChunks { data, .. } if *data == vec!["a"]));
    let read = read.step(ReadEvent::ChunkData(Ok("b")));
    assert!(matches!(read.state(), ReadState::BorrowOutput { .. }));
    let read = read.step(ReadEvent::Output { contiguous: true });
    match read.state() {
        ReadState::Decode { reads, data, decoded, failure } => {
            assert_eq!(*reads, chunks);
            assert_eq!(*data, vec!["a", "b"]);
            assert_eq!(*decoded, 0);
            assert!(failure.is_none());
        }
        _ => panic!("not decoding"),
    }
    let read = read.step(ReadEvent::Decoded(Ok(())));
    assert!(matches!(read.state(), ReadState::Decode { decoded: 1, .. }));
    let read = read.step(ReadEvent::Decoded(Ok(())));
    assert!(matches!(read.state(), ReadState::NextIndex));
    let read = read.step(ReadEvent::IndexRead(None));
    assert!(matches!(read.state(), ReadState::Finished(Ok(()))));
    assert!(matches!(read.into_state(), ReadState::Finished(Ok(()))));
}

#[test]
fn several_blocks_are_read_in_turn() {
    let mut events = vec![ReadEvent::Prepared(Ok(()))];
    for _ in 0..3 {
        events.push(ReadEvent::IndexRead(Some(OmOffsetSize::new(1, 2))));
        events.push(ReadEvent::IndexData(Ok("index")));
        events.push(ReadEvent::ChunkList(Ok(vec![chunk(1, 2, 3)])));
        events.push(ReadEvent::ChunkData(Ok("data")));
        events.push(ReadEvent::Output { contiguous: true });
        events.push(ReadEvent::Decoded(Ok(())));
    }
    events.push(ReadEvent::IndexRead(None));
    assert!(matches!(run(events).state(), ReadState::Finished(Ok(()))));
}

#[test]
fn a_refused_region_ends_the_read() {
    let read = run(vec![ReadEvent::Prepared(Err(OmFilesError::InvalidDataType))]);
    assert!(matches!(read.state(), ReadState::Finished(Err(OmFilesError::InvalidDataType))));
}

#[test]
fn a_failed_index_ends_the_read() {
    let mut events = until_chunks(vec![]);
    events.truncate(2);
    events.push(ReadEvent::IndexData(Err(lost())));
    let read = run(events);
    assert!(matches!(read.state(), ReadState::Finished(Err(error)) if *error == lost()));
    let mut events = until_chunks(vec![]);
    events.truncate(3);
    events.push(ReadEvent::ChunkList(Err(lost())));
    let read = run(events);
    assert!(matches!(read.state(), ReadState::Finished(Err(error)) if *error == lost()));
}

#[test]
fn the_first_failed_chunk_ends_the_read() {
    let mut events = until_chunks(vec![chunk(1, 2, 3), chunk(4, 5, 6), chunk(7, 8, 9)]);
    events.push(ReadEvent::ChunkData(Ok("a")));
    events.push(ReadEvent::ChunkData(Err(lost())));
    events.push(ReadEvent::ChunkData(Err(OmFilesError::FileTooSmall)));
    let expected = OmFilesError::TaskError("lost".to_string());
    let read = run(events);
    assert!(matches!(read.state(), ReadState::Finished(Err(error)) if *error == expected));
    let mut events = until_chunks(vec![chunk(1, 2, 3)]);
    events.push(ReadEvent::ChunkData(Err(OmFilesError::NotAnOmFile)));
    let expected = OmFilesError::TaskError("Not an OM file".to_string());
    let read = run(events);
    assert!(matches!(read.state(), ReadState::Finished(Err(error)) if *error == expected));
}

#[test]
fn a_scattered_target_ends_the_read() {
    for chunks in [vec![], vec![chunk(1, 2, 3)]] {
        let count = chunks.len();
        let mut events = until_chunks(chunks);
        for _ in 0..count {
            events.push(ReadEvent::ChunkData(Ok("a")));
        }
        events.push(ReadEvent::Output { contiguous: false });
        let read = run(events);
        assert!(matches!(read.state(), ReadState::Finished(Err(OmFilesError::ArrayNotContiguous))));
    }
}

#[test]
fn all_chunks_are_decoded_before_the_first_failure_counts() {
    let mut events = until_chunks(vec![chunk(1, 2, 3), chunk(4, 5, 6), chunk(7, 8, 9)]);
    for data in ["a", "b", "c"] {
        events.push(ReadEvent::ChunkData(Ok(data)));
    }
    events.push(ReadEvent::Output { contiguous: true });
    events.push(ReadEvent::Decoded(Ok(())));
    events.push(ReadEvent::Decoded(Err(lost())));
    let read = run(events);
    match read.state() {
        ReadState::Decode { decoded, failure, .. } => {
            assert_eq!(*decoded, 2);
            assert_eq!(*failure, Some(lost()));
        }
        _ => panic!("not decoding"),
    }
    let read = read.step(ReadEvent::Decoded(Err(OmFilesError::FileTooSmall)));
    assert!(matches!(read.state(), ReadState::Finished(Err(error)) if *error == lost()));
}

#[test]
fn an_empty_block_is_followed_by_the_next() {
    let mut events = until_chunks(vec![]);
    events.push(ReadEvent::Output { contiguous: true });
    assert!(matches!(run(events).state(), ReadState::NextIndex));
}

#[test]
fn events_out_of_turn_change_nothing() {
    let read = run(vec![ReadEvent::Decoded(Err(lost()))]);
    assert!(matches!(read.state(), ReadState::Prepare(_)));
    let read = run(vec![
        ReadEvent::Prepared(Ok(())),
        ReadEvent::IndexRead(None),
        ReadEvent::IndexData(Err(lost())),
        ReadEvent::Prepared(Err(lost())),
    ]);
    assert!(matches!(read.state(), ReadState::Finished(Ok(()))));
}
