//! What holds of every list of children, of the groups that they are fetched in, and of what a
//! search among them finds.

use std::sync::Arc;

use vstd::prelude::*;

use crate::child_search::{self, ChildGroup};
use crate::child_search_laws;
use crate::children::{self, ChildEntry};
use crate::errors::{ErrorView, OmFilesError};
use crate::reader_async::{OmFileReaderAsync, ReaderView};
use crate::variable::{self, OmOffsetSize};

verus! {

/// Children are ordered by where their metadata starts, and by number where it starts at the same
/// place.
pub proof fn law_order(a: ChildEntry, b: ChildEntry)
    ensures
        a.offset < b.offset ==> children::in_order(a, b) && !children::in_order(b, a),
        a.offset == b.offset && a.index < b.index ==> children::in_order(a, b)
            && !children::in_order(b, a),
        a.offset == b.offset && a.index == b.index ==> children::in_order(a, b),
{
}

/// Children fit if and only if none of them ends beyond the largest position.
pub proof fn law_children_fit(listed: Seq<ChildEntry>)
    ensures
        children::children_fit(listed) <==> forall|i: int|
            0 <= i < listed.len() ==> (#[trigger] listed[i]).offset + listed[i].size
                <= 0xffff_ffff_ffff_ffff,
{
    if forall|i: int|
        0 <= i < listed.len() ==> (#[trigger] listed[i]).offset + listed[i].size
            <= 0xffff_ffff_ffff_ffff {
        assert forall|i: int| 0 <= i < listed.len() implies (#[trigger] listed[i]).end()
            <= u64::MAX by {}
    } else {
        let i = choose|i: int|
            0 <= i < listed.len() && !((#[trigger] listed[i]).offset + listed[i].size
                <= 0xffff_ffff_ffff_ffff);
        assert(listed[i].end() > u64::MAX);
    }
}

/// All children of a variable are listed, each under its number and with the location that the
/// metadata of the variable gives.
pub proof fn law_all_children_are_listed(block: Seq<u8>, index: int)
    requires
        variable::is_complete(block),
        0 <= index < variable::block_children_count(block),
    ensures
        children::all_children(block).len() == variable::block_children_count(block),
        children::all_children(block)[index].index == index,
        children::all_children(block)[index].offset == variable::block_child(block, index).offset,
        children::all_children(block)[index].size == variable::block_child(block, index).size,
{
    child_search_laws::lemma_number_fits(block);
}

/// The groups of a plan hold each child once: there are as many places as children, no two places
/// hold the same number, and each place holds a child of the variable with its location. The
/// children stand in the order of their places in the file.
#[verifier::rlimit(40)]
pub proof fn law_each_child_is_in_one_group(block: Seq<u8>, groups: Seq<Seq<ChildEntry>>)
    requires
        variable::is_complete(block),
        child_search::is_plan(block, groups),
    ensures
        groups.flatten().len() == variable::block_children_count(block),
        forall|a: int|
            0 <= a < groups.flatten().len() ==> {
                let child = #[trigger] groups.flatten()[a];
                &&& child.index < variable::block_children_count(block)
                &&& child.offset == variable::block_child(block, child.index as int).offset
                &&& child.size == variable::block_child(block, child.index as int).size
            },
        forall|a: int, b: int|
            0 <= a < b < groups.flatten().len() ==> {
                let first = #[trigger] groups.flatten()[a];
                let second = #[trigger] groups.flatten()[b];
                &&& first.index != second.index
                &&& first.offset < second.offset || (first.offset == second.offset && first.index
                    < second.index)
            },
{
    let listed = children::all_children(block);
    let sorted = groups.flatten();
    child_search_laws::lemma_number_fits(block);
    child_search_laws::lemma_plan_members(block, groups);
    assert forall|a: int| 0 <= a < sorted.len() implies {
        let child = #[trigger] sorted[a];
        &&& child.index < variable::block_children_count(block)
        &&& child == listed[child.index as int]
    } by {
        assert(sorted.contains(sorted[a]));
        assert(listed.contains(sorted[a]));
        let at = choose|at: int| 0 <= at < listed.len() && listed[at] == sorted[a];
        assert(listed[at].index == at);
    }
    assert(listed.no_duplicates()) by {
        assert forall|i: int, j: int| 0 <= i < listed.len() && 0 <= j < listed.len() && i
            != j implies listed[i] != listed[j] by {
            assert(listed[i].index == i && listed[j].index == j);
        }
    }
    listed.lemma_multiset_has_no_duplicates();
    sorted.lemma_multiset_has_no_duplicates_conv();
    assert forall|a: int, b: int| 0 <= a < b < sorted.len() implies {
        let first = #[trigger] sorted[a];
        let second = #[trigger] sorted[b];
        &&& first.index != second.index
        &&& first.offset < second.offset || (first.offset == second.offset && first.index
            < second.index)
    } by {
        assert(sorted[a] != sorted[b]);
        assert(sorted[a] == listed[sorted[a].index as int]);
        assert(sorted[b] == listed[sorted[b].index as int]);
        assert(children::in_order(sorted[a], sorted[b]));
    }
}

/// Within a group, each child but the first starts at most 512 bytes after the end of one of those
/// before it.
pub proof fn law_children_of_a_group_are_close(
    groups: Seq<Seq<ChildEntry>>,
    k: int,
    i: int,
)
    requires
        child_search::is_grouping(groups),
        0 <= k < groups.len(),
        0 < i < groups[k].len(),
    ensures
        exists|j: int|
            0 <= j < i && groups[k][i].offset <= (#[trigger] groups[k][j]).offset + groups[k][j].size
                + 512,
{
    let before = groups[k].take(i);
    assert(child_search::is_close(before, groups[k][i]));
    child_search::lemma_furthest_end(before);
    let j = choose|j: int|
        0 <= j < before.len() && (#[trigger] before[j]).end() == child_search::furthest_end(before);
    assert(groups[k][j] == before[j]);
}

/// Children of different groups are further apart: the one in the later group starts more than 512
/// bytes after the end of the one in the earlier group.
pub proof fn law_children_of_different_groups_lie_apart(
    block: Seq<u8>,
    groups: Seq<Seq<ChildEntry>>,
    j: int,
    k: int,
    a: int,
    b: int,
)
    requires
        child_search::is_plan(block, groups),
        children::children_fit(children::all_children(block)),
        0 <= j < k < groups.len(),
        0 <= a < groups[j].len(),
        0 <= b < groups[k].len(),
    ensures
        groups[j][a].offset + groups[j][a].size + 512 < groups[k][b].offset,
{
    child_search_laws::law_requests_lie_apart(block, groups);
    child_search_laws::lemma_group_covers(block, groups, j, a);
    child_search_laws::lemma_group_covers(block, groups, k, b);
    assert(child_search_laws::lie_apart(
        child_search::group_request(groups[j]),
        child_search::group_request(groups[k]),
    ));
}

/// A request is no larger than it has to be, and no smaller: it starts where the first of the
/// children starts, ends where the last of them ends, and holds all of them.
pub proof fn law_request_is_tight(group: Seq<ChildEntry>)
    requires
        group.len() > 0,
        children::is_ordered(group),
        children::children_fit(group),
    ensures
        ({
            let request = child_search::group_request(group);
            &&& forall|i: int|
                0 <= i < group.len() ==> request.offset <= (#[trigger] group[i]).offset
                    && group[i].offset + group[i].size <= request.offset + request.size
            &&& exists|i: int|
                0 <= i < group.len() && (#[trigger] group[i]).offset == request.offset
            &&& exists|i: int|
                0 <= i < group.len() && (#[trigger] group[i]).offset + group[i].size
                    == request.offset + request.size
        }),
{
    let request = child_search::group_request(group);
    child_search::lemma_furthest_end(group);
    let last = choose|i: int|
        0 <= i < group.len() && (#[trigger] group[i]).end() == child_search::furthest_end(group);
    assert(group[0].end() <= child_search::furthest_end(group));
    assert forall|i: int| 0 <= i < group.len() implies request.offset <= (
    #[trigger] group[i]).offset && group[i].offset + group[i].size <= request.offset
        + request.size by {
        assert(group[i].end() <= child_search::furthest_end(group));
        if i > 0 {
            assert(children::in_order(group[0], group[i]));
        }
    }
    assert(group[0].offset == request.offset);
    assert(group[last].offset + group[last].size == request.offset + request.size);
}

/// The bytes of `file` at a child's place.
pub open spec fn bytes_at(file: Seq<u8>, offset: u64, size: u64) -> Seq<u8> {
    file.subrange(offset as int, offset + size)
}

/// From the bytes that a group's request asks for, and whatever follows them, each child is read
/// with just its own bytes of the file, under its number and with its location. That fails if and
/// only if the metadata of a child is not complete. A failed request is passed on.
pub proof fn law_group_is_read<Backend>(
    backend: Arc<Backend>,
    group: Seq<ChildEntry>,
    file: Seq<u8>,
    after: Seq<u8>,
    failure: ErrorView,
)
    requires
        group.len() > 0,
        children::is_ordered(group),
        children::children_fit(group),
        child_search::group_request(group).offset + child_search::group_request(group).size
            <= file.len(),
    ensures
        ({
            let request = child_search::group_request(group);
            let data = bytes_at(file, request.offset, request.size) + after;
            match child_search::group_outcome(backend, group, Ok(data)) {
                Ok(readers) => {
                    &&& readers.len() == group.len()
                    &&& forall|j: int|
                        0 <= j < group.len() ==> variable::is_complete(
                            #[trigger] bytes_at(file, group[j].offset, group[j].size),
                        )
                    &&& forall|j: int|
                        0 <= j < group.len() ==> #[trigger] readers[j] == (
                            group[j].index,
                            ReaderView {
                                backend,
                                block: bytes_at(file, group[j].offset, group[j].size),
                                offset_size: OmOffsetSize {
                                    offset: group[j].offset,
                                    size: group[j].size,
                                },
                            },
                        )
                },
                Err(error) => {
                    &&& error == ErrorView::NotAnOmFile
                    &&& exists|j: int|
                        0 <= j < group.len() && !variable::is_complete(
                            #[trigger] bytes_at(file, group[j].offset, group[j].size),
                        )
                },
            }
        }),
        child_search::group_outcome(backend, group, Err(failure)) == Err::<
            Seq<(u32, ReaderView<Backend>)>,
            ErrorView,
        >(failure),
{
    let request = child_search::group_request(group);
    let data = bytes_at(file, request.offset, request.size) + after;
    law_request_is_tight(group);
    assert forall|j: int| 0 <= j < group.len() implies child_search::child_bytes(
        #[trigger] group[j],
        group[0].offset,
        data,
    ) == bytes_at(file, group[j].offset, group[j].size) by {
        assert(request.offset <= group[j].offset);
        assert(child_search::child_bytes(group[j], group[0].offset, data) =~= bytes_at(
            file,
            group[j].offset,
            group[j].size,
        ));
    }
    if forall|j: int|
        0 <= j < group.len() ==> variable::is_complete(
            child_search::child_bytes(#[trigger] group[j], group[0].offset, data),
        ) {
        assert forall|j: int| 0 <= j < group.len() implies variable::is_complete(
            #[trigger] bytes_at(file, group[j].offset, group[j].size),
        ) by {
            assert(variable::is_complete(
                child_search::child_bytes(group[j], group[0].offset, data),
            ));
        }
    } else {
        let j = choose|j: int|
            0 <= j < group.len() && !variable::is_complete(
                child_search::child_bytes(#[trigger] group[j], group[0].offset, data),
            );
        assert(!variable::is_complete(bytes_at(file, group[j].offset, group[j].size)));
    }
}

/// A variable is called by the bytes of its name, all of them.
pub proof fn law_name_decides<Backend>(reader: ReaderView<Backend>, name: Seq<char>)
    ensures
        child_search::is_named(reader, name) <==> variable::block_name(reader.block)
            == vstd::utf8::encode_utf8(name),
{
}

/// Child number `index` is called `name`, as its metadata in `file` says.
pub open spec fn is_called(block: Seq<u8>, file: Seq<u8>, index: int, name: Seq<char>) -> bool {
    let location = variable::block_child(block, index);
    variable::block_name(bytes_at(file, location.offset, location.size))
        == vstd::utf8::encode_utf8(name)
}

proof fn lemma_scan_finds_the_first<Backend>(
    backend: Arc<Backend>,
    block: Seq<u8>,
    file: Seq<u8>,
    name: Seq<char>,
    from: int,
)
    requires
        0 <= from,
    ensures
        match child_search_laws::scan_from(backend, block, file, name, from) {
            None => forall|i: int|
                from <= i < variable::block_children_count(block) ==> !#[trigger] is_called(
                    block,
                    file,
                    i,
                    name,
                ),
            Some(reader) => exists|i: int|
                from <= i < variable::block_children_count(block) && #[trigger] is_first(
                    backend,
                    block,
                    file,
                    name,
                    from,
                    i,
                    reader,
                ),
        },
    decreases variable::block_children_count(block) - from,
{
    if from < variable::block_children_count(block) {
        lemma_scan_finds_the_first(backend, block, file, name, from + 1);
        let child = children::child_entry(block, from);
        let location = variable::block_child(block, from);
        assert(bytes_at(file, location.offset, location.size)
            == child_search_laws::bytes_in_file(child, file));
        let (_, reader) = child_search_laws::reader_in_file(backend, file, child);
        assert(child_search::is_named(reader, name) == is_called(block, file, from, name));
        let found = child_search_laws::scan_from(backend, block, file, name, from);
        if is_called(block, file, from, name) {
            assert(is_first(backend, block, file, name, from, from, reader));
        } else if found is Some {
            let i = choose|i: int|
                from + 1 <= i < variable::block_children_count(block) && #[trigger] is_first(
                    backend,
                    block,
                    file,
                    name,
                    from + 1,
                    i,
                    found->0,
                );
            assert(is_first(backend, block, file, name, from, i, found->0));
        }
    }
}

/// Child number `index` is the first one from number `from` on that is called `name`, and `reader`
/// is the reader of its metadata in `file`.
pub open spec fn is_first<Backend>(
    backend: Arc<Backend>,
    block: Seq<u8>,
    file: Seq<u8>,
    name: Seq<char>,
    from: int,
    index: int,
    reader: ReaderView<Backend>,
) -> bool {
    let location = variable::block_child(block, index);
    &&& is_called(block, file, index, name)
    &&& forall|i: int| from <= i < index ==> !#[trigger] is_called(block, file, i, name)
    &&& reader.backend == backend
    &&& reader.block == bytes_at(file, location.offset, location.size)
    &&& reader.offset_size == location
}

/// In a file in which the metadata of all children is complete, a search finds the first child that
/// is called by the name, with all of its metadata and its location; it finds nothing only if no
/// child is called so.
pub proof fn law_search_finds_the_first<Backend>(
    backend: Arc<Backend>,
    block: Seq<u8>,
    groups: Seq<Seq<ChildEntry>>,
    file: Seq<u8>,
    refusal: ErrorView,
    name: Seq<char>,
)
    requires
        variable::is_complete(block),
        child_search::is_plan(block, groups),
        file.len() <= u64::MAX,
        forall|i: int|
            0 <= i < variable::block_children_count(block) ==> {
                let location = #[trigger] variable::block_child(block, i);
                location.offset + location.size <= file.len() && variable::is_complete(
                    bytes_at(file, location.offset, location.size),
                )
            },
    ensures
        match child_search::found_child(
            backend,
            groups,
            child_search_laws::served_replies(groups, file, refusal),
            name,
        ) {
            None => forall|i: int|
                0 <= i < variable::block_children_count(block) ==> !#[trigger] is_called(
                    block,
                    file,
                    i,
                    name,
                ),
            Some(reader) => exists|i: int|
                0 <= i < variable::block_children_count(block) && #[trigger] is_first(
                    backend,
                    block,
                    file,
                    name,
                    0,
                    i,
                    reader,
                ),
        },
{
    assert(child_search_laws::children_readable(block, file)) by {
        assert forall|index: int| 0 <= index < variable::block_children_count(block) implies {
            let child = #[trigger] children::child_entry(block, index);
            child.end() <= file.len() && variable::is_complete(
                child_search_laws::bytes_in_file(child, file),
            )
        } by {
            let location = variable::block_child(block, index);
            assert(variable::is_complete(bytes_at(file, location.offset, location.size)));
        }
    }
    child_search_laws::law_search_is_linear_scan(backend, block, groups, file, refusal, name);
    lemma_scan_finds_the_first(backend, block, file, name, 0);
}

/// What was found before is kept unless a list holds a match with a lower number.
pub proof fn law_lower_match_replaces<Backend>(
    found: (u32, ReaderView<Backend>),
    readers: Seq<(u32, ReaderView<Backend>)>,
    name: Seq<char>,
)
    ensures
        child_search::lowest_match(Some(found), readers, name) == (
        match child_search::lowest_match(None, readers, name) {
            Some(best) => if best.0 < found.0 {
                Some(best)
            } else {
                Some(found)
            },
            None => Some(found),
        }),
{
    child_search_laws::lemma_lowest_match_from(Some(found), readers, name);
}

/// Replies fit if and only if there is one for each group, with at least as many bytes as were
/// asked for wherever it is no failure.
pub proof fn law_replies_fit(
    groups: Seq<Seq<ChildEntry>>,
    replies: Seq<Result<Seq<u8>, ErrorView>>,
)
    ensures
        child_search::replies_fit(groups, replies) <==> {
            &&& replies.len() == groups.len()
            &&& forall|k: int|
                0 <= k < groups.len() && (#[trigger] replies[k]) is Ok ==> replies[k]->Ok_0.len()
                    >= child_search::group_request(groups[k]).size
        },
{
}

/// Lists of groups, readers and replies, and what was found, are taken by the whole view of each of
/// their elements.
pub proof fn law_lists_are_kept<Backend>(
    groups: Seq<ChildGroup>,
    readers: Seq<(u32, OmFileReaderAsync<Backend>)>,
    replies: Seq<Result<Vec<u8>, OmFilesError>>,
    index: u32,
    reader: OmFileReaderAsync<Backend>,
    error: OmFilesError,
    list: Vec<(u32, OmFileReaderAsync<Backend>)>,
)
    ensures
        child_search::groups_view(groups).len() == groups.len(),
        forall|i: int|
            0 <= i < groups.len() ==> #[trigger] child_search::groups_view(groups)[i] == groups[i]@,
        child_search::numbered_view(readers).len() == readers.len(),
        forall|i: int|
            0 <= i < readers.len() ==> #[trigger] child_search::numbered_view(readers)[i] == (
                readers[i].0,
                readers[i].1@,
            ),
        child_search::replies_view(replies).len() == replies.len(),
        forall|i: int|
            0 <= i < replies.len() ==> #[trigger] child_search::replies_view(replies)[i] == (
            match replies[i] {
                Ok(bytes) => Ok::<Seq<u8>, ErrorView>(bytes@),
                Err(failure) => Err(failure@),
            }),
        child_search::found_view(Some((index, reader))) == Some((index, reader@)),
        child_search::found_view::<Backend>(None) is None,
        child_search::child_view(Some(reader)) == Some(reader@),
        child_search::child_view::<Backend>(None) is None,
        child_search::numbered_outcome(Ok(list)) == Ok::<
            Seq<(u32, ReaderView<Backend>)>,
            ErrorView,
        >(child_search::numbered_view(list@)),
        child_search::numbered_outcome::<Backend>(Err(error)) == Err::<
            Seq<(u32, ReaderView<Backend>)>,
            ErrorView,
        >(error@),
{
}

} // verus!
