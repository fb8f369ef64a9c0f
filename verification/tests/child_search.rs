use omfiles::child_search::{
    find_child_by_name, group_children, keep_lowest_match, ChildSearch, MERGE_GAP,
};
use omfiles::children::{check_children_fit, collect_children, sort_by_offset, ChildEntry};
use omfiles::errors::OmFilesError;
use omfiles::opening::OpenAction;
use omfiles::reader_async::OmFileReaderAsync;
use omfiles::variable::{OmOffsetSize, OmVariable};
use std::sync::Arc;

fn child_block(name: &str) -> Vec<u8> {
    let mut block = vec![0u8, 4];
    block.extend_from_slice(&(name.len() as u16).to_le_bytes());
    block.extend_from_slice(&0u32.to_le_bytes());
    block.extend_from_slice(name.as_bytes());
    block
}

fn parent_block(code: u8, children: &[(u64, u64)]) -> Vec<u8> {
    let mut block = vec![code, 4, 0, 0];
    block.extend_from_slice(&(children.len() as u32).to_le_bytes());
    if code >= 12 {
        block.resize(40, 0);
    }
    for (_, size) in children {
        block.extend_from_slice(&size.to_le_bytes());
    }
    for (offset, _) in children {
        block.extend_from_slice(&offset.to_le_bytes());
    }
    block
}

fn entry(index: u32, offset: u64, size: u64) -> ChildEntry {
    ChildEntry { index, offset, size }
}

fn opened(block: Vec<u8>) -> OmFileReaderAsync<u8> {
    let mut trailer = b"OM\x03\0\0\0\0\0".to_vec();
    trailer.extend_from_slice(&0u64.to_le_bytes());
    trailer.extend_from_slice(&(block.len() as u64).to_le_bytes());
    let mut action = OmFileReaderAsync::new(Arc::new(5u8), block.len() + 24);
    for reply in [trailer, block] {
        action = match action {
            OpenAction::Fetch(opening) => opening.resume(Ok(reply)),
            other => other,
        };
    }
    match action {
        OpenAction::Opened(reader) => reader,
        _ => panic!("not opened"),
    }
}

/// A file with the named children at the given offsets, and the metadata of their parent.
fn family(code: u8, children: &[(&str, u64)]) -> (Vec<u8>, Vec<u8>) {
    let mut file: Vec<u8> = Vec::new();
    let mut locations = Vec::new();
    for (name, offset) in children {
        let block = child_block(name);
        let end = *offset as usize + block.len();
        if file.len() < end {
            file.resize(end, 0);
        }
        file[*offset as usize..end].copy_from_slice(&block);
        locations.push((*offset, block.len() as u64));
    }
    (file, parent_block(code, &locations))
}

fn replies(file: &[u8], search: &ChildSearch) -> Vec<Result<Vec<u8>, OmFilesError>> {
    let mut replies = Vec::new();
    for group in search.groups() {
        let request = group.request();
        let start = request.offset as usize;
        replies.push(Ok(file[start..start + request.size as usize].to_vec()));
    }
    replies
}

fn linear_scan(file: &[u8], parent: &OmVariable, name: &str) -> Option<OmOffsetSize> {
    for index in 0..parent.number_of_children() {
        let location = parent.child(index).unwrap();
        let start = location.offset as usize;
        let bytes = file[start..start + location.size as usize].to_vec();
        if OmVariable::new(bytes).unwrap().is_named(name) {
            return Some(location);
        }
    }
    None
}

#[test]
fn children_are_listed_by_number() {
    for code in [0u8, 20] {
        let parent = OmVariable::new(parent_block(code, &[(900, 9), (100, 1), (500, 5)])).unwrap();
        let listed = collect_children(&parent);
        assert_eq!(listed, vec![entry(0, 900, 9), entry(1, 100, 1), entry(2, 500, 5)]);
    }
}

#[test]
fn children_are_ordered_by_place_and_then_by_number() {
    let listed = vec![
        entry(0, 900, 9),
        entry(1, 100, 1),
        entry(2, 500, 5),
        entry(3, 100, 7),
        entry(4, 0, 3),
        entry(5, 100, 2),
    ];
    let sorted = sort_by_offset(listed);
    assert_eq!(
        sorted,
        vec![
            entry(4, 0, 3),
            entry(1, 100, 1),
            entry(3, 100, 7),
            entry(5, 100, 2),
            entry(2, 500, 5),
            entry(0, 900, 9),
        ]
    );
    assert_eq!(sort_by_offset(vec![]), vec![]);
    let mut many: Vec<ChildEntry> =
        (0..150u32).map(|index| entry(index, (index as u64 * 7919) % 151, 1)).collect();
    let sorted = sort_by_offset(many.clone());
    many.sort_by_key(|child| child.offset);
    assert_eq!(sorted, many);
}

#[test]
fn ends_that_do_not_fit_are_noticed() {
    assert!(check_children_fit(&vec![]));
    assert!(check_children_fit(&vec![entry(0, u64::MAX, 0), entry(1, 0, u64::MAX)]));
    assert!(!check_children_fit(&vec![entry(0, 1, 1), entry(1, u64::MAX, 1)]));
}

#[test]
fn close_children_are_fetched_together() {
    assert_eq!(MERGE_GAP, 512);
    let sorted = vec![entry(0, 0, 10), entry(1, 522, 10), entry(2, 1045, 10), entry(3, 1045, 2)];
    let groups = group_children(&sorted);
    assert_eq!(groups.len(), 2);
    assert_eq!(groups[0].members(), &vec![entry(0, 0, 10), entry(1, 522, 10)]);
    assert_eq!(groups[1].members(), &vec![entry(2, 1045, 10), entry(3, 1045, 2)]);
    assert_eq!(groups[0].request(), OmOffsetSize::new(0, 532));
    assert_eq!(groups[1].request(), OmOffsetSize::new(1045, 10));
    assert!(group_children(&vec![]).is_empty());
}

#[test]
fn closeness_is_measured_from_the_furthest_end() {
    let sorted = vec![entry(0, 0, 5000), entry(1, 10, 10), entry(2, 1000, 10)];
    let groups = group_children(&sorted);
    assert_eq!(groups.len(), 1);
    assert_eq!(groups[0].request(), OmOffsetSize::new(0, 5000));
    let sorted = vec![entry(0, 0, 5000), entry(1, 10, 10), entry(2, 5512, 1), entry(3, 6026, 1)];
    let groups = group_children(&sorted);
    assert_eq!(groups.len(), 2);
    assert_eq!(groups[0].request(), OmOffsetSize::new(0, 5513));
    assert_eq!(groups[1].request(), OmOffsetSize::new(6026, 1));
}

#[test]
fn children_inside_another_take_one_request() {
    let children = [(0u64, 2000u64), (10, 20), (1500, 100)];
    let search = ChildSearch::new(&OmVariable::new(parent_block(0, &children)).unwrap());
    assert_eq!(search.groups().len(), 1);
    assert_eq!(search.groups()[0].request(), OmOffsetSize::new(0, 2000));
    let members = search.groups()[0].members();
    assert_eq!(members, &vec![entry(0, 0, 2000), entry(1, 10, 20), entry(2, 1500, 100)]);
}

#[test]
fn requests_lie_apart() {
    let children = [(3000u64, 5u64), (0, 2000), (10, 20), (2600, 1), (1500, 100), (9000, 7)];
    let search = ChildSearch::new(&OmVariable::new(parent_block(0, &children)).unwrap());
    let requests: Vec<OmOffsetSize> =
        search.groups().iter().map(|group| group.request()).collect();
    assert_eq!(
        requests,
        vec![OmOffsetSize::new(0, 2000), OmOffsetSize::new(2600, 405), OmOffsetSize::new(9000, 7)]
    );
    for pair in requests.windows(2) {
        assert!(pair[0].offset + pair[0].size + MERGE_GAP < pair[1].offset);
    }
}

#[test]
fn requests_have_no_wide_gap() {
    let sorted = vec![entry(0, 0, 10), entry(1, 522, 10), entry(2, 600, 1), entry(3, 1113, 10)];
    let groups = group_children(&sorted);
    assert_eq!(groups.len(), 1);
    let request = groups[0].request();
    for from in request.offset..request.offset + request.size - MERGE_GAP {
        let to = from + MERGE_GAP;
        assert!(groups[0]
            .members()
            .iter()
            .any(|child| child.offset <= to && from < child.offset + child.size));
    }
}

#[test]
fn closeness_at_the_largest_positions_does_not_overflow() {
    let sorted = vec![entry(0, u64::MAX - 100, 100), entry(1, u64::MAX, 0)];
    let groups = group_children(&sorted);
    assert_eq!(groups.len(), 1);
    assert_eq!(groups[0].request(), OmOffsetSize::new(u64::MAX - 100, 100));
}

#[test]
fn a_group_is_split_into_readers() {
    let (file, parent) = family(0, &[("b", 100), ("a", 40)]);
    let search = ChildSearch::new(&OmVariable::new(parent).unwrap());
    let group = &search.groups()[0];
    assert_eq!(group.request(), OmOffsetSize::new(40, 69));
    let backend = Arc::new("backend");
    let readers = group.read(&backend, &file[40..109]).unwrap();
    assert_eq!(readers.len(), 2);
    assert_eq!(readers[0].0, 1);
    assert!(readers[0].1.variable().is_named("a"));
    assert_eq!(*readers[0].1.offset_size(), OmOffsetSize::new(40, 9));
    assert_eq!(readers[1].0, 0);
    assert!(readers[1].1.variable().is_named("b"));
    assert_eq!(*readers[1].1.offset_size(), OmOffsetSize::new(100, 9));
    assert!(Arc::ptr_eq(&readers[1].1.backend, &backend));
    let mut broken = file[40..109].to_vec();
    broken[62] = 200;
    assert!(matches!(group.read(&backend, &broken), Err(OmFilesError::NotAnOmFile)));
}

#[test]
fn the_match_with_the_lowest_number_is_kept() {
    let (file, parent) = family(0, &[("x", 40), ("y", 60), ("x", 0), ("x", 20)]);
    let search = ChildSearch::new(&OmVariable::new(parent).unwrap());
    assert_eq!(search.groups().len(), 1);
    let backend = Arc::new(());
    let group = &search.groups()[0];
    let lowest = keep_lowest_match(None, group.read(&backend, &file).unwrap(), "x").unwrap();
    assert_eq!(lowest.0, 0);
    assert_eq!(*lowest.1.offset_size(), OmOffsetSize::new(40, 9));
    let kept = keep_lowest_match(Some(lowest), group.read(&backend, &file).unwrap(), "y").unwrap();
    assert_eq!(kept.0, 0);
    assert!(keep_lowest_match(None, group.read(&backend, &file).unwrap(), "z").is_none());
}

#[test]
fn a_search_finds_what_a_linear_scan_finds() {
    let children = [
        ("wind", 9000),
        ("rain", 0),
        ("snow", 400),
        ("rain", 5000),
        ("temperature_2m", 2000),
        ("snow", 100),
        ("wind", 8000),
    ];
    let (file, parent) = family(0, &children);
    let reader = opened(parent);
    let search = ChildSearch::new(reader.variable());
    assert_eq!(search.groups().len(), 5);
    let replies = replies(&file, &search);
    for name in ["wind", "rain", "snow", "temperature_2m", "hail", ""] {
        let found = reader.get_child_by_name(&search, &replies, name);
        let expected = linear_scan(&file, reader.variable(), name);
        assert_eq!(found.as_ref().map(|child| *child.offset_size()), expected);
        if let Some(child) = found {
            assert!(child.variable().is_named(name));
            assert!(Arc::ptr_eq(&child.backend, &reader.backend));
            let location = *child.offset_size();
            let start = location.offset as usize;
            let bytes = file[start..start + location.size as usize].to_vec();
            let again = reader.new_from_offset(location, Ok(bytes)).unwrap();
            assert_eq!(again.variable().as_bytes(), child.variable().as_bytes());
        }
    }
}

#[test]
fn a_search_among_the_children_of_an_array() {
    let (file, parent) = family(20, &[("units", 0), ("long_name", 100)]);
    let reader = opened(parent);
    let array = reader.expect_array().unwrap();
    let search = ChildSearch::new(array.variable());
    let replies = replies(&file, &search);
    let child = array.get_child_by_name(&search, &replies, "long_name").unwrap();
    assert_eq!(*child.offset_size(), OmOffsetSize::new(100, 17));
    assert!(array.get_child_by_name(&search, &replies, "missing").is_none());
}

#[test]
fn groups_that_fail_are_passed_over() {
    let (file, parent) = family(0, &[("x", 0), ("x", 5000), ("x", 9000)]);
    let parent = OmVariable::new(parent).unwrap();
    let search = ChildSearch::new(&parent);
    assert_eq!(search.groups().len(), 3);
    let backend = Arc::new(());
    let mut replies = replies(&file, &search);
    replies[0] = Err(OmFilesError::GenericError("down".to_string()));
    let found = find_child_by_name(&backend, &search, &replies, "x").unwrap();
    assert_eq!(found.offset_size().offset, 5000);
    replies[1] = Ok(vec![0, 0, 9, 0, 0, 0, 0, 0, 0]);
    let found = find_child_by_name(&backend, &search, &replies, "x").unwrap();
    assert_eq!(found.offset_size().offset, 9000);
    replies[2] = Err(OmFilesError::FileTooSmall);
    assert!(find_child_by_name(&backend, &search, &replies, "x").is_none());
}

#[test]
fn the_lowest_match_among_those_that_arrived_is_found() {
    let (file, parent) = family(0, &[("x", 9000), ("y", 0), ("x", 5000), ("x", 100), ("x", 20000)]);
    let search = ChildSearch::new(&OmVariable::new(parent).unwrap());
    assert_eq!(search.groups().len(), 4);
    let backend = Arc::new(());
    let mut replies = replies(&file, &search);
    for (failed, offset) in [(None, 9000), (Some(2), 5000), (Some(1), 100), (Some(0), 20000)] {
        if let Some(group) = failed {
            replies[group] = Err(OmFilesError::GenericError("down".to_string()));
        }
        let found = find_child_by_name(&backend, &search, &replies, "x").unwrap();
        assert_eq!(found.offset_size().offset, offset);
    }
    assert!(find_child_by_name(&backend, &search, &replies, "y").is_none());
}

#[test]
fn every_child_is_covered_by_a_request() {
    let children = [(7000u64, 30u64), (0, 900), (10, 5), (1000, 1), (1600, 0), (6500, 2)];
    let parent = OmVariable::new(parent_block(0, &children)).unwrap();
    let search = ChildSearch::new(&parent);
    assert!(search.groups().len() <= children.len());
    let mut seen = vec![];
    for group in search.groups() {
        let request = group.request();
        for child in group.members() {
            assert!(request.offset <= child.offset);
            assert!(child.offset + child.size <= request.offset + request.size);
            assert_eq!((child.offset, child.size), children[child.index as usize]);
            seen.push(child.index);
        }
    }
    seen.sort();
    assert_eq!(seen, vec![0, 1, 2, 3, 4, 5]);
}

#[test]
fn a_search_limits_its_concurrent_requests() {
    let search = ChildSearch::new(&OmVariable::new(parent_block(0, &[])).unwrap());
    assert!(search.groups().is_empty());
    let permits: Vec<_> = (0..16).map(|_| search.semaphore().try_acquire().unwrap()).collect();
    assert!(search.semaphore().try_acquire().is_none());
    assert_eq!(permits.len(), 16);
    assert!(find_child_by_name(&Arc::new(()), &search, &vec![], "x").is_none());
}

#[test]
fn the_same_children_are_grouped_the_same_way() {
    let parent = OmVariable::new(parent_block(0, &[(700, 3), (0, 9), (5000, 1), (0, 2)])).unwrap();
    let first = ChildSearch::new(&parent);
    let second = ChildSearch::new(&parent);
    let members: Vec<_> = first.groups().iter().map(|group| group.members().clone()).collect();
    assert_eq!(
        members,
        vec![vec![entry(1, 0, 9), entry(3, 0, 2)], vec![entry(0, 700, 3)], vec![entry(2, 5000, 1)]]
    );
    let again: Vec<_> = second.groups().iter().map(|group| group.members().clone()).collect();
    assert_eq!(members, again);
}
