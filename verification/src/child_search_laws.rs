//! What holds of every search among the children of a variable.

use std::sync::Arc;

use vstd::prelude::*;

use crate::child_search;
use crate::children::{self, ChildEntry};
use crate::errors::ErrorView;
use crate::little_endian;
use crate::opening;
use crate::reader_async::ReaderView;
use crate::variable::{self, OmOffsetSize};

verus! {

/// The reader at place `i` is the match with the lowest number: it is called `name`, and every
/// other reader with that name has a higher number or, with the same number, comes later.
pub open spec fn is_lowest_match<Backend>(
    readers: Seq<(u32, ReaderView<Backend>)>,
    name: Seq<char>,
    i: int,
) -> bool {
    &&& 0 <= i < readers.len()
    &&& child_search::is_named(readers[i].1, name)
    &&& forall|j: int|
        0 <= j < readers.len() && child_search::is_named((#[trigger] readers[j]).1, name)
            ==> readers[i].0 < readers[j].0 || (readers[i].0 == readers[j].0 && i <= j)
}

/// Which of `readers` is kept: none of them if none is called `name`, else the match with the
/// lowest number.
pub proof fn law_lowest_match<Backend>(
    readers: Seq<(u32, ReaderView<Backend>)>,
    name: Seq<char>,
)
    ensures
        match child_search::lowest_match(None, readers, name) {
            None => forall|j: int|
                0 <= j < readers.len() ==> !child_search::is_named(
                    (#[trigger] readers[j]).1,
                    name,
                ),
            Some(found) => exists|i: int| #[trigger]
                is_lowest_match(readers, name, i) && readers[i] == found,
        },
    decreases readers.len(),
{
    if readers.len() > 0 {
        let others = readers.drop_last();
        law_lowest_match(others, name);
        let best = child_search::lowest_match(None, others, name);
        let at_last = readers.len() - 1;
        assert forall|j: int| 0 <= j < readers.len() && j != at_last implies readers[j]
            == others[j] by {}
        if child_search::lowest_match(None, readers, name) == best {
            if best is Some {
                let i = choose|i: int| #[trigger]
                    is_lowest_match(others, name, i) && others[i] == best->0;
                assert(readers[i] == others[i]);
                assert(is_lowest_match(readers, name, i));
            }
        } else {
            assert(readers[at_last] == readers.last());
            assert(is_lowest_match(readers, name, at_last));
        }
    }
}

/// An element of the concatenation is an element of one of the parts.
pub(crate) proof fn lemma_flatten_part(groups: Seq<Seq<ChildEntry>>, child: ChildEntry)
    requires
        groups.flatten().contains(child),
    ensures
        exists|k: int, j: int|
            0 <= k < groups.len() && 0 <= j < groups[k].len() && #[trigger] groups[k][j] == child,
    decreases groups.len(),
{
    let first = groups[0];
    let rest = groups.drop_first();
    let all = groups.flatten();
    assert(all == first + rest.flatten());
    let at = choose|at: int| 0 <= at < all.len() && all[at] == child;
    if at < first.len() {
        assert(groups[0][at] == child);
    } else {
        assert(rest.flatten()[at - first.len()] == child);
        assert(rest.flatten().contains(child));
        lemma_flatten_part(rest, child);
        let (k, j) = choose|k: int, j: int|
            0 <= k < rest.len() && 0 <= j < rest[k].len() && #[trigger] rest[k][j] == child;
        assert(groups[k + 1][j] == child);
    }
}

/// An element of a part is an element of the concatenation.
pub(crate) proof fn lemma_part_flatten(groups: Seq<Seq<ChildEntry>>, k: int, j: int)
    requires
        0 <= k < groups.len(),
        0 <= j < groups[k].len(),
    ensures
        groups.flatten().contains(groups[k][j]),
    decreases groups.len(),
{
    let first = groups[0];
    let rest = groups.drop_first();
    let all = groups.flatten();
    assert(all == first + rest.flatten());
    if k == 0 {
        assert(all[j] == groups[0][j]);
    } else {
        assert(rest[k - 1] == groups[k]);
        lemma_part_flatten(rest, k - 1, j);
        let at = choose|at: int|
            0 <= at < rest.flatten().len() && rest.flatten()[at] == groups[k][j];
        assert(all[first.len() + at] == groups[k][j]);
    }
}

/// A concatenation of non-empty parts has at least as many elements as there are parts.
proof fn lemma_flatten_len(groups: Seq<Seq<ChildEntry>>)
    requires
        forall|k: int| 0 <= k < groups.len() ==> (#[trigger] groups[k]).len() > 0,
    ensures
        groups.len() <= groups.flatten().len(),
    decreases groups.len(),
{
    if groups.len() > 0 {
        let rest = groups.drop_first();
        assert forall|k: int| 0 <= k < rest.len() implies (#[trigger] rest[k]).len() > 0 by {
            assert(rest[k] == groups[k + 1]);
        }
        lemma_flatten_len(rest);
    }
}

/// The children that a plan holds are those of the variable.
pub(crate) proof fn lemma_plan_members(block: Seq<u8>, groups: Seq<Seq<ChildEntry>>)
    requires
        child_search::is_plan(block, groups),
    ensures
        groups.flatten().len() == children::all_children(block).len(),
        forall|child: ChildEntry|
            groups.flatten().contains(child) <==> #[trigger] children::all_children(
                block,
            ).contains(child),
{
    groups.flatten().to_multiset_ensures();
    children::all_children(block).to_multiset_ensures();
    assert forall|child: ChildEntry|
        groups.flatten().contains(child) <==> #[trigger] children::all_children(block).contains(
            child,
        ) by {
        assert(groups.flatten().contains(child) <==> groups.flatten().to_multiset().count(child)
            > 0);
        assert(children::all_children(block).contains(child) <==> children::all_children(
            block,
        ).to_multiset().count(child) > 0);
    }
}

/// Child number `index` is in one of the groups, and the request for that group covers its
/// metadata.
pub open spec fn is_covered(block: Seq<u8>, groups: Seq<Seq<ChildEntry>>, index: int) -> bool {
    exists|k: int, j: int|
        0 <= k < groups.len() && 0 <= j < groups[k].len() && #[trigger] groups[k][j]
            == children::child_entry(block, index) && covers(groups[k], groups[k][j])
}

/// The request for `group` covers the metadata of `child`.
pub open spec fn covers(group: Seq<ChildEntry>, child: ChildEntry) -> bool {
    let request = child_search::group_request(group);
    request.offset <= child.offset && child.end() <= request.offset + request.size
}

/// The parts of an ordered concatenation are ordered.
pub(crate) proof fn lemma_part_ordered(groups: Seq<Seq<ChildEntry>>, k: int)
    requires
        children::is_ordered(groups.flatten()),
        0 <= k < groups.len(),
    ensures
        children::is_ordered(groups[k]),
    decreases groups.len(),
{
    let first = groups[0];
    let rest = groups.drop_first();
    let all = groups.flatten();
    assert(all == first + rest.flatten());
    if k == 0 {
        assert forall|i: int, j: int| 0 <= i < j < first.len() implies children::in_order(
            #[trigger] first[i],
            #[trigger] first[j],
        ) by {
            assert(all[i] == first[i] && all[j] == first[j]);
        }
    } else {
        let tail = rest.flatten();
        assert forall|i: int, j: int| 0 <= i < j < tail.len() implies children::in_order(
            #[trigger] tail[i],
            #[trigger] tail[j],
        ) by {
            assert(all[first.len() + i] == tail[i] && all[first.len() + j] == tail[j]);
        }
        assert(rest[k - 1] == groups[k]);
        lemma_part_ordered(rest, k - 1);
    }
}

/// The requests of a plan cover the metadata of every child, and there are no more requests than
/// children.
pub proof fn law_requests_cover_children(block: Seq<u8>, groups: Seq<Seq<ChildEntry>>)
    requires
        child_search::is_plan(block, groups),
        children::children_fit(children::all_children(block)),
    ensures
        forall|index: int|
            0 <= index < variable::block_children_count(block) ==> #[trigger] is_covered(
                block,
                groups,
                index,
            ),
        groups.len() <= variable::block_children_count(block),
{
    let listed = children::all_children(block);
    lemma_plan_members(block, groups);
    lemma_flatten_len(groups);
    assert forall|index: int|
        0 <= index < variable::block_children_count(block) implies #[trigger] is_covered(
        block,
        groups,
        index,
    ) by {
        let child = children::child_entry(block, index);
        assert(listed[index] == child);
        assert(listed.contains(child));
        lemma_flatten_part(groups, child);
        let (k, j) = choose|k: int, j: int|
            0 <= k < groups.len() && 0 <= j < groups[k].len() && #[trigger] groups[k][j] == child;
        lemma_group_covers(block, groups, k, j);
        assert(groups[k][j] == child);
    }
}

/// The request for a group of a plan covers each child of the group.
pub(crate) proof fn lemma_group_covers(block: Seq<u8>, groups: Seq<Seq<ChildEntry>>, k: int, j: int)
    requires
        child_search::is_plan(block, groups),
        children::children_fit(children::all_children(block)),
        0 <= k < groups.len(),
        0 <= j < groups[k].len(),
    ensures
        covers(groups[k], groups[k][j]),
        child_search::group_request(groups[k]).offset + child_search::group_request(groups[k]).size
            == child_search::furthest_end(groups[k]),
        groups[k][0].offset <= child_search::furthest_end(groups[k]) <= u64::MAX,
{
    let group = groups[k];
    let listed = children::all_children(block);
    lemma_plan_members(block, groups);
    lemma_part_ordered(groups, k);
    child_search::lemma_furthest_end(group);
    let i = choose|i: int|
        0 <= i < group.len() && (#[trigger] group[i]).end() == child_search::furthest_end(group);
    lemma_part_flatten(groups, k, i);
    assert(listed.contains(group[i]));
    let at = choose|at: int| 0 <= at < listed.len() && listed[at] == group[i];
    assert(listed[at].end() <= u64::MAX);
    assert(group[0].end() <= child_search::furthest_end(group));
    if j > 0 {
        assert(children::in_order(group[0], group[j]));
    }
}

/// Bytes that are asked for with two requests lie apart: the second request starts more than the
/// gap after the end of the first.
pub open spec fn lie_apart(first: OmOffsetSize, second: OmOffsetSize) -> bool {
    first.offset + first.size + child_search::MERGE_GAP < second.offset
}

/// No two requests of a plan overlap or lie within the gap of each other.
pub proof fn law_requests_lie_apart(block: Seq<u8>, groups: Seq<Seq<ChildEntry>>)
    requires
        child_search::is_plan(block, groups),
        children::children_fit(children::all_children(block)),
    ensures
        forall|j: int, k: int|
            0 <= j < k < groups.len() ==> lie_apart(
                #[trigger] child_search::group_request(groups[j]),
                #[trigger] child_search::group_request(groups[k]),
            ),
{
    assert forall|j: int, k: int| 0 <= j < k < groups.len() implies lie_apart(
        #[trigger] child_search::group_request(groups[j]),
        #[trigger] child_search::group_request(groups[k]),
    ) by {
        lemma_lie_apart(block, groups, j, k);
    }
}

proof fn lemma_lie_apart(block: Seq<u8>, groups: Seq<Seq<ChildEntry>>, j: int, k: int)
    requires
        child_search::is_plan(block, groups),
        children::children_fit(children::all_children(block)),
        0 <= j < k < groups.len(),
    ensures
        lie_apart(
            child_search::group_request(groups[j]),
            child_search::group_request(groups[k]),
        ),
    decreases k - j,
{
    assert(groups[j].len() > 0 && groups[k - 1].len() > 0);
    lemma_group_covers(block, groups, j, 0);
    lemma_group_covers(block, groups, k - 1, 0);
    assert(!child_search::is_close(groups[k - 1], groups[k][0]));
    if j < k - 1 {
        lemma_lie_apart(block, groups, j, k - 1);
    }
}

/// One of the bytes from `from` to `to` belongs to the metadata of one of the children.
pub open spec fn touches(children: Seq<ChildEntry>, from: int, to: int) -> bool {
    exists|i: int|
        0 <= i < children.len() && (#[trigger] children[i]).size > 0 && children[i].offset <= to
            && from < children[i].end()
}

/// If the group starts before `from`, and none of its children, which are not empty, touches the
/// bytes from there on, up to the gap, then its first children all end before.
proof fn lemma_untouched(group: Seq<ChildEntry>, from: int, count: int)
    requires
        forall|i: int|
            0 < i < group.len() ==> child_search::is_close(group.take(i), #[trigger] group[i]),
        forall|i: int| 0 <= i < group.len() ==> (#[trigger] group[i]).size > 0,
        group[0].offset <= from,
        !touches(group, from, from + child_search::MERGE_GAP),
        0 < count <= group.len(),
    ensures
        child_search::furthest_end(group.take(count)) <= from,
    decreases count,
{
    let last = count - 1;
    assert(group.take(count).drop_last() =~= group.take(last));
    assert(group.take(count).last() == group[last]);
    if last == 0 {
        assert(child_search::furthest_end(group.take(0)) == 0);
    } else {
        lemma_untouched(group, from, last);
        assert(child_search::is_close(group.take(last), group[last]));
    }
}

/// If no child is empty, no request holds more than the gap of bytes in a row that belong to no
/// child.
pub proof fn law_requests_have_no_wide_gap(
    block: Seq<u8>,
    groups: Seq<Seq<ChildEntry>>,
    k: int,
    from: int,
)
    requires
        child_search::is_plan(block, groups),
        children::children_fit(children::all_children(block)),
        forall|i: int|
            0 <= i < variable::block_children_count(block) ==> #[trigger] children::child_entry(
                block,
                i,
            ).size > 0,
        0 <= k < groups.len(),
        child_search::group_request(groups[k]).offset <= from,
        from + child_search::MERGE_GAP < child_search::group_request(groups[k]).offset
            + child_search::group_request(groups[k]).size,
    ensures
        touches(groups[k], from, from + child_search::MERGE_GAP),
{
    let group = groups[k];
    assert(group.len() > 0);
    lemma_group_covers(block, groups, k, 0);
    let listed = children::all_children(block);
    assert forall|i: int| 0 <= i < group.len() implies (#[trigger] group[i]).size > 0 by {
        lemma_part_flatten(groups, k, i);
        lemma_plan_members(block, groups);
        assert(listed.contains(group[i]));
        let at = choose|at: int| 0 <= at < listed.len() && listed[at] == group[i];
        assert(group[i] == children::child_entry(block, at));
    }
    if !touches(group, from, from + child_search::MERGE_GAP) {
        lemma_untouched(group, from, group.len() as int);
        assert(group.take(group.len() as int) =~= group);
    }
}

/// Keeping the lowest match of one list and then of another is keeping that of both.
proof fn lemma_lowest_match_concat<Backend>(
    found: Option<(u32, ReaderView<Backend>)>,
    first: Seq<(u32, ReaderView<Backend>)>,
    second: Seq<(u32, ReaderView<Backend>)>,
    name: Seq<char>,
)
    ensures
        child_search::lowest_match(
            child_search::lowest_match(found, first, name),
            second,
            name,
        ) == child_search::lowest_match(found, first + second, name),
    decreases second.len(),
{
    if second.len() == 0 {
        assert(first + second =~= first);
    } else {
        lemma_lowest_match_concat(found, first, second.drop_last(), name);
        assert((first + second).drop_last() =~= first + second.drop_last());
        assert((first + second).last() == second.last());
    }
}

/// The bytes of a child in the file.
pub open spec fn bytes_in_file(child: ChildEntry, file: Seq<u8>) -> Seq<u8> {
    file.subrange(child.offset as int, child.end())
}

/// The numbered reader of a child whose metadata is read straight from the file.
pub open spec fn reader_in_file<Backend>(
    backend: Arc<Backend>,
    file: Seq<u8>,
    child: ChildEntry,
) -> (u32, ReaderView<Backend>) {
    child_search::child_reader(backend, child, bytes_in_file(child, file))
}

/// The first child called `name`, with the children tried one at a time from number `index` on.
pub open spec fn scan_from<Backend>(
    backend: Arc<Backend>,
    block: Seq<u8>,
    file: Seq<u8>,
    name: Seq<char>,
    index: int,
) -> Option<ReaderView<Backend>>
    decreases variable::block_children_count(block) - index,
{
    if index >= variable::block_children_count(block) {
        None
    } else {
        let (_, reader) = reader_in_file(backend, file, children::child_entry(block, index));
        if child_search::is_named(reader, name) {
            Some(reader)
        } else {
            scan_from(backend, block, file, name, index + 1)
        }
    }
}

/// The metadata of every child lies in the file and is complete there.
pub open spec fn children_readable(block: Seq<u8>, file: Seq<u8>) -> bool {
    forall|index: int|
        0 <= index < variable::block_children_count(block) ==> {
            let child = #[trigger] children::child_entry(block, index);
            child.end() <= file.len() && variable::is_complete(bytes_in_file(child, file))
        }
}

/// The replies of a backend that serves `file`, one for each group.
pub open spec fn served_replies(
    groups: Seq<Seq<ChildEntry>>,
    file: Seq<u8>,
    refusal: ErrorView,
) -> Seq<Result<Seq<u8>, ErrorView>> {
    groups.map_values(
        |group: Seq<ChildEntry>|
            opening::served(file, child_search::group_request(group), refusal),
    )
}

/// The bytes of a group come to the readers of its children.
proof fn lemma_served_data<Backend>(backend: Arc<Backend>, group: Seq<ChildEntry>, file: Seq<u8>)
    requires
        group.len() > 0,
        group[0].offset <= child_search::furthest_end(group) <= file.len(),
        forall|j: int|
            0 <= j < group.len() ==> group[0].offset <= (#[trigger] group[j]).offset
                && variable::is_complete(bytes_in_file(group[j], file)),
    ensures
        child_search::group_readers(
            backend,
            group,
            file.subrange(group[0].offset as int, child_search::furthest_end(group)),
        ) == Ok::<Seq<(u32, ReaderView<Backend>)>, ErrorView>(
            group.map_values(|child: ChildEntry| reader_in_file(backend, file, child)),
        ),
{
    let start = group[0].offset;
    let data = file.subrange(start as int, child_search::furthest_end(group));
    child_search::lemma_furthest_end(group);
    assert forall|j: int| 0 <= j < group.len() implies child_search::child_bytes(
        #[trigger] group[j],
        start,
        data,
    ) == bytes_in_file(group[j], file) by {
        assert(child_search::child_bytes(group[j], start, data) =~= bytes_in_file(group[j], file));
    }
    assert(child_search::group_readers(backend, group, data)->Ok_0 =~= group.map_values(
        |child: ChildEntry| reader_in_file(backend, file, child),
    ));
}

/// The children of a plan's group are readable, as all children are.
proof fn lemma_readable_group(
    block: Seq<u8>,
    groups: Seq<Seq<ChildEntry>>,
    file: Seq<u8>,
    k: int,
    j: int,
)
    requires
        child_search::is_plan(block, groups),
        children_readable(block, file),
        0 <= k < groups.len(),
        0 <= j < groups[k].len(),
    ensures
        groups[k][j].end() <= file.len(),
        variable::is_complete(bytes_in_file(groups[k][j], file)),
{
    let listed = children::all_children(block);
    lemma_plan_members(block, groups);
    lemma_part_flatten(groups, k, j);
    assert(listed.contains(groups[k][j]));
    let at = choose|at: int| 0 <= at < listed.len() && listed[at] == groups[k][j];
    assert(groups[k][j] == children::child_entry(block, at));
}

/// A group that is served comes to the readers of its children.
proof fn lemma_served_group<Backend>(
    backend: Arc<Backend>,
    block: Seq<u8>,
    groups: Seq<Seq<ChildEntry>>,
    file: Seq<u8>,
    refusal: ErrorView,
    k: int,
)
    requires
        child_search::is_plan(block, groups),
        children_readable(block, file),
        file.len() <= u64::MAX,
        0 <= k < groups.len(),
    ensures
        child_search::group_outcome(
            backend,
            groups[k],
            served_replies(groups, file, refusal)[k],
        ) == Ok::<Seq<(u32, ReaderView<Backend>)>, ErrorView>(
            groups[k].map_values(|child: ChildEntry| reader_in_file(backend, file, child)),
        ),
{
    let group = groups[k];
    let listed = children::all_children(block);
    assert forall|i: int| 0 <= i < listed.len() implies (#[trigger] listed[i]).end() <= u64::MAX by {
        assert(listed[i] == children::child_entry(block, i));
    }
    assert(group.len() > 0);
    lemma_group_covers(block, groups, k, 0);
    assert forall|j: int| 0 <= j < group.len() implies {
        let child = #[trigger] group[j];
        &&& group[0].offset <= child.offset
        &&& child.end() <= file.len()
        &&& variable::is_complete(bytes_in_file(child, file))
    } by {
        lemma_group_covers(block, groups, k, j);
        lemma_readable_group(block, groups, file, k, j);
    }
    child_search::lemma_furthest_end(group);
    lemma_served_data(backend, group, file);
}

/// Searching the first `count` groups, all of them served, is keeping the lowest match among the
/// readers of their children.
proof fn lemma_served_search<Backend>(
    backend: Arc<Backend>,
    block: Seq<u8>,
    groups: Seq<Seq<ChildEntry>>,
    file: Seq<u8>,
    refusal: ErrorView,
    name: Seq<char>,
    count: nat,
)
    requires
        child_search::is_plan(block, groups),
        children_readable(block, file),
        file.len() <= u64::MAX,
        count <= groups.len(),
    ensures
        child_search::found_among(
            backend,
            groups,
            served_replies(groups, file, refusal),
            name,
            count,
        ) == child_search::lowest_match(
            None,
            groups.take(count as int).flatten().map_values(
                |child: ChildEntry| reader_in_file(backend, file, child),
            ),
            name,
        ),
    decreases count,
{
    let f = |child: ChildEntry| reader_in_file(backend, file, child);
    if count == 0 {
        assert(groups.take(0).flatten().map_values(f) =~= Seq::empty());
    } else {
        let last = count - 1;
        lemma_served_search(backend, block, groups, file, refusal, name, last as nat);
        lemma_served_group(backend, block, groups, file, refusal, last);
        let before = groups.take(last);
        assert(groups.take(count as int) =~= before.push(groups[last]));
        before.lemma_flatten_push(groups[last]);
        assert((before.flatten() + groups[last]).map_values(f) =~= before.flatten().map_values(f)
            + groups[last].map_values(f));
        lemma_lowest_match_concat(
            None,
            before.flatten().map_values(f),
            groups[last].map_values(f),
            name,
        );
    }
}

/// Trying the children one at a time finds the first with the name, or none if there is none.
proof fn lemma_scan<Backend>(
    backend: Arc<Backend>,
    block: Seq<u8>,
    file: Seq<u8>,
    name: Seq<char>,
    from: int,
    index: int,
)
    requires
        0 <= from <= index < variable::block_children_count(block),
        child_search::is_named(
            reader_in_file(backend, file, children::child_entry(block, index)).1,
            name,
        ),
        forall|i: int|
            from <= i < index ==> !child_search::is_named(
                reader_in_file(backend, file, #[trigger] children::child_entry(block, i)).1,
                name,
            ),
    ensures
        scan_from(backend, block, file, name, from) == Some(
            reader_in_file(backend, file, children::child_entry(block, index)).1,
        ),
    decreases index - from,
{
    if from < index {
        assert(!child_search::is_named(
            reader_in_file(backend, file, children::child_entry(block, from)).1,
            name,
        ));
        lemma_scan(backend, block, file, name, from + 1, index);
    }
}

proof fn lemma_scan_none<Backend>(
    backend: Arc<Backend>,
    block: Seq<u8>,
    file: Seq<u8>,
    name: Seq<char>,
    from: int,
)
    requires
        0 <= from,
        forall|i: int|
            from <= i < variable::block_children_count(block) ==> !child_search::is_named(
                reader_in_file(backend, file, #[trigger] children::child_entry(block, i)).1,
                name,
            ),
    ensures
        scan_from(backend, block, file, name, from) is None,
    decreases variable::block_children_count(block) - from,
{
    if from < variable::block_children_count(block) {
        assert(!child_search::is_named(
            reader_in_file(backend, file, children::child_entry(block, from)).1,
            name,
        ));
        lemma_scan_none(backend, block, file, name, from + 1);
    }
}

/// Every child has a place among those that a plan holds.
proof fn lemma_place(block: Seq<u8>, groups: Seq<Seq<ChildEntry>>, index: int) -> (place: int)
    requires
        child_search::is_plan(block, groups),
        0 <= index < variable::block_children_count(block),
    ensures
        0 <= place < groups.flatten().len(),
        groups.flatten()[place] == children::child_entry(block, index),
{
    let listed = children::all_children(block);
    let sorted = groups.flatten();
    lemma_plan_members(block, groups);
    assert(listed[index] == children::child_entry(block, index));
    assert(listed.contains(children::child_entry(block, index)));
    choose|at: int| 0 <= at < sorted.len() && sorted[at] == children::child_entry(block, index)
}

/// Searching with merged requests finds the same child as trying the children one at a time, in
/// the order of their numbers, on every file in which the metadata of the children is complete.
pub proof fn law_search_is_linear_scan<Backend>(
    backend: Arc<Backend>,
    block: Seq<u8>,
    groups: Seq<Seq<ChildEntry>>,
    file: Seq<u8>,
    refusal: ErrorView,
    name: Seq<char>,
)
    requires
        variable::is_complete(block),
        child_search::is_plan(block, groups),
        children_readable(block, file),
        file.len() <= u64::MAX,
    ensures
        child_search::found_child(
            backend,
            groups,
            served_replies(groups, file, refusal),
            name,
        ) == scan_from(backend, block, file, name, 0),
{
    let f = |child: ChildEntry| reader_in_file(backend, file, child);
    let listed = children::all_children(block);
    let sorted = groups.flatten();
    let readers = sorted.map_values(f);
    lemma_served_search(backend, block, groups, file, refusal, name, groups.len());
    assert(groups.take(groups.len() as int) =~= groups);
    law_lowest_match(readers, name);
    lemma_plan_members(block, groups);
    match child_search::lowest_match(None, readers, name) {
        None => {
            assert forall|i: int|
                0 <= i < variable::block_children_count(block) implies !child_search::is_named(
                reader_in_file(backend, file, #[trigger] children::child_entry(block, i)).1,
                name,
            ) by {
                let at = lemma_place(block, groups, i);
                assert(readers[at] == f(sorted[at]));
            }
            lemma_scan_none(backend, block, file, name, 0);
        },
        Some(found) => {
            let at = choose|at: int| #[trigger]
                is_lowest_match(readers, name, at) && readers[at] == found;
            assert(sorted.contains(sorted[at]));
            assert(listed.contains(sorted[at]));
            let index = choose|i: int| 0 <= i < listed.len() && listed[i] == sorted[at];
            assert(sorted[at] == children::child_entry(block, index));
            assert(found == reader_in_file(backend, file, children::child_entry(block, index)));
            lemma_number_fits(block);
            assert forall|i: int| 0 <= i < index implies !child_search::is_named(
                reader_in_file(backend, file, #[trigger] children::child_entry(block, i)).1,
                name,
            ) by {
                let other = lemma_place(block, groups, i);
                assert(readers[other] == f(sorted[other]));
                if child_search::is_named(readers[other].1, name) {
                    assert(found.0 <= readers[other].0);
                    assert(readers[other].0 == i);
                    assert(found.0 == index);
                }
            }
            lemma_scan(backend, block, file, name, 0, index);
        },
    }
}

/// The lowest match is the one that was there before or one of the list.
proof fn lemma_lowest_match_source<Backend>(
    found: Option<(u32, ReaderView<Backend>)>,
    readers: Seq<(u32, ReaderView<Backend>)>,
    name: Seq<char>,
)
    ensures
        child_search::lowest_match(found, readers, name) == found || exists|j: int|
            0 <= j < readers.len() && child_search::lowest_match(found, readers, name) == Some(
                #[trigger] readers[j],
            ) && child_search::is_named(readers[j].1, name),
    decreases readers.len(),
{
    if readers.len() > 0 {
        let others = readers.drop_last();
        lemma_lowest_match_source(found, others, name);
        let best = child_search::lowest_match(found, others, name);
        if child_search::lowest_match(found, readers, name) == best {
            if best != found {
                let j = choose|j: int|
                    0 <= j < others.len() && best == Some(#[trigger] others[j])
                        && child_search::is_named(others[j].1, name);
                assert(readers[j] == others[j]);
            }
        } else {
            assert(readers[readers.len() - 1] == readers.last());
        }
    }
}

/// The reader belongs to a child of the variable with the metadata `block`: its location is where
/// that metadata says that the child is.
pub open spec fn is_child<Backend>(reader: ReaderView<Backend>, block: Seq<u8>) -> bool {
    exists|index: int|
        0 <= index < variable::block_children_count(block) && reader.offset_size
            == #[trigger] variable::block_child(block, index)
}

/// The replies come from a backend that serves `file`, except for requests that failed.
pub open spec fn come_from(
    groups: Seq<Seq<ChildEntry>>,
    replies: Seq<Result<Seq<u8>, ErrorView>>,
    file: Seq<u8>,
    refusal: ErrorView,
) -> bool {
    &&& replies.len() == groups.len()
    &&& forall|k: int|
        0 <= k < groups.len() && (#[trigger] replies[k]) is Ok ==> replies[k] == opening::served(
            file,
            child_search::group_request(groups[k]),
            refusal,
        )
}

#[verifier::rlimit(40)]
proof fn lemma_found_among<Backend>(
    backend: Arc<Backend>,
    block: Seq<u8>,
    groups: Seq<Seq<ChildEntry>>,
    replies: Seq<Result<Seq<u8>, ErrorView>>,
    file: Seq<u8>,
    refusal: ErrorView,
    name: Seq<char>,
    count: nat,
)
    requires
        child_search::is_plan(block, groups),
        children::children_fit(children::all_children(block)),
        come_from(groups, replies, file, refusal),
        count <= groups.len(),
    ensures
        child_search::found_among(backend, groups, replies, name, count) matches Some((_, reader))
            ==> {
            &&& child_search::is_named(reader, name)
            &&& is_child(reader, block)
            &&& opening::leads_back(reader, file, refusal)
        },
    decreases count,
{
    if count > 0 {
        let last = count - 1;
        lemma_found_among(backend, block, groups, replies, file, refusal, name, last as nat);
        let before = child_search::found_among(backend, groups, replies, name, last as nat);
        let group = groups[last];
        if let Ok(readers) = child_search::group_outcome(backend, group, replies[last]) {
            lemma_lowest_match_source(before, readers, name);
            let found = child_search::lowest_match(before, readers, name);
            if found != before {
                let j = choose|j: int|
                    0 <= j < readers.len() && found == Some(#[trigger] readers[j])
                        && child_search::is_named(readers[j].1, name);
                let child = group[j];
                let request = child_search::group_request(group);
                let data = replies[last]->Ok_0;
                lemma_group_covers(block, groups, last, j);
                lemma_part_flatten(groups, last, j);
                lemma_plan_members(block, groups);
                let listed = children::all_children(block);
                assert(listed.contains(child));
                let at = choose|at: int| 0 <= at < listed.len() && listed[at] == child;
                assert(child == children::child_entry(block, at));
                assert(replies[last] is Ok);
                assert(data == file.subrange(
                    request.offset as int,
                    request.offset + request.size,
                ));
                let bytes = child_search::child_bytes(child, request.offset, data);
                assert(bytes =~= bytes_in_file(child, file));
                assert(readers[j] == child_search::child_reader(backend, child, bytes));
                assert(variable::is_complete(
                    child_search::child_bytes(group[j], group[0].offset, data),
                ));
                assert(variable::block_child(block, at) == readers[j].1.offset_size);
            }
        }
    }
}

/// Whatever requests failed, a child that a search finds has the name that was asked for, it is a
/// child of the variable, and its location in the file leads back to it.
pub proof fn law_found_child<Backend>(
    backend: Arc<Backend>,
    block: Seq<u8>,
    groups: Seq<Seq<ChildEntry>>,
    replies: Seq<Result<Seq<u8>, ErrorView>>,
    file: Seq<u8>,
    refusal: ErrorView,
    name: Seq<char>,
)
    requires
        child_search::is_plan(block, groups),
        children::children_fit(children::all_children(block)),
        come_from(groups, replies, file, refusal),
    ensures
        child_search::found_child(backend, groups, replies, name) matches Some(reader) ==> {
            &&& child_search::is_named(reader, name)
            &&& is_child(reader, block)
            &&& opening::leads_back(reader, file, refusal)
        },
{
    lemma_found_among(backend, block, groups, replies, file, refusal, name, groups.len());
}

/// Which of the readers of group number `k` arrived: all of them if the group was fetched and could
/// be read, else none.
pub open spec fn arrived<Backend>(
    backend: Arc<Backend>,
    groups: Seq<Seq<ChildEntry>>,
    replies: Seq<Result<Seq<u8>, ErrorView>>,
    k: int,
) -> Seq<(u32, ReaderView<Backend>)> {
    match child_search::group_outcome(backend, groups[k], replies[k]) {
        Ok(readers) => readers,
        Err(_) => Seq::empty(),
    }
}

/// None of the readers that arrived with the first `count` groups is called `name`.
pub open spec fn none_arrived<Backend>(
    backend: Arc<Backend>,
    groups: Seq<Seq<ChildEntry>>,
    replies: Seq<Result<Seq<u8>, ErrorView>>,
    name: Seq<char>,
    count: int,
) -> bool {
    forall|k: int, j: int|
        0 <= k < count && 0 <= j < arrived(backend, groups, replies, k).len()
            ==> !child_search::is_named(
            (#[trigger] arrived(backend, groups, replies, k)[j]).1,
            name,
        )
}

/// Reader number `j` of group number `k` is the match with the lowest number among those that
/// arrived with the first `count` groups: it is called `name`, and every other with that name has
/// a higher number or, with the same number, comes later.
pub open spec fn is_lowest_arrived<Backend>(
    backend: Arc<Backend>,
    groups: Seq<Seq<ChildEntry>>,
    replies: Seq<Result<Seq<u8>, ErrorView>>,
    name: Seq<char>,
    count: int,
    k: int,
    j: int,
) -> bool {
    let (lowest, reader) = arrived(backend, groups, replies, k)[j];
    &&& 0 <= k < count
    &&& 0 <= j < arrived(backend, groups, replies, k).len()
    &&& child_search::is_named(reader, name)
    &&& forall|other: int, i: int|
        0 <= other < count && 0 <= i < arrived(backend, groups, replies, other).len()
            && child_search::is_named(
            (#[trigger] arrived(backend, groups, replies, other)[i]).1,
            name,
        ) ==> {
            let index = arrived(backend, groups, replies, other)[i].0;
            lowest < index || (lowest == index && (k < other || (k == other && j <= i)))
        }
}

/// Keeping the lowest match among what was found and a list is keeping what was found unless the
/// lowest match of the list has a lower number.
pub(crate) proof fn lemma_lowest_match_from<Backend>(
    found: Option<(u32, ReaderView<Backend>)>,
    readers: Seq<(u32, ReaderView<Backend>)>,
    name: Seq<char>,
)
    ensures
        child_search::lowest_match(found, readers, name) == (match (
            found,
            child_search::lowest_match(None, readers, name),
        ) {
            (Some(kept), Some(best)) => if best.0 < kept.0 {
                Some(best)
            } else {
                found
            },
            (Some(_), None) => found,
            (None, best) => best,
        }),
    decreases readers.len(),
{
    if readers.len() > 0 {
        lemma_lowest_match_from(found, readers.drop_last(), name);
    }
}

proof fn lemma_lowest_arrived<Backend>(
    backend: Arc<Backend>,
    groups: Seq<Seq<ChildEntry>>,
    replies: Seq<Result<Seq<u8>, ErrorView>>,
    name: Seq<char>,
    count: nat,
)
    ensures
        match child_search::found_among(backend, groups, replies, name, count) {
            None => none_arrived(backend, groups, replies, name, count as int),
            Some(found) => exists|k: int, j: int| #[trigger]
                is_lowest_arrived(backend, groups, replies, name, count as int, k, j) && arrived(
                    backend,
                    groups,
                    replies,
                    k,
                )[j] == found,
        },
    decreases count,
{
    if count > 0 {
        let last = count - 1;
        lemma_lowest_arrived(backend, groups, replies, name, last as nat);
        let before = child_search::found_among(backend, groups, replies, name, last as nat);
        let readers = arrived(backend, groups, replies, last);
        let best = child_search::lowest_match(None, readers, name);
        lemma_lowest_match_from(before, readers, name);
        law_lowest_match(readers, name);
        let found = child_search::found_among(backend, groups, replies, name, count);
        assert(found == child_search::lowest_match(before, readers, name));
        if found is Some {
            if found == before {
                let (k, j) = choose|k: int, j: int| #[trigger]
                    is_lowest_arrived(backend, groups, replies, name, last, k, j) && arrived(
                        backend,
                        groups,
                        replies,
                        k,
                    )[j] == before->0;
                assert(is_lowest_arrived(backend, groups, replies, name, count as int, k, j));
            } else {
                let j = choose|j: int| #[trigger]
                    is_lowest_match(readers, name, j) && readers[j] == best->0;
                assert(is_lowest_arrived(backend, groups, replies, name, count as int, last, j));
            }
        }
    }
}

/// Whatever the replies are, a search finds nothing if and only if no reader that arrived is called
/// `name`, and else the reader with the lowest number among those that arrived and are called so.
pub proof fn law_search_keeps_the_lowest_arrived<Backend>(
    backend: Arc<Backend>,
    groups: Seq<Seq<ChildEntry>>,
    replies: Seq<Result<Seq<u8>, ErrorView>>,
    name: Seq<char>,
)
    requires
        replies.len() == groups.len(),
    ensures
        child_search::found_child(backend, groups, replies, name) is None <==> none_arrived(
            backend,
            groups,
            replies,
            name,
            groups.len() as int,
        ),
        child_search::found_child(backend, groups, replies, name) matches Some(reader) ==> exists|
            k: int,
            j: int,
        | #[trigger]
            is_lowest_arrived(backend, groups, replies, name, groups.len() as int, k, j) && arrived(
                backend,
                groups,
                replies,
                k,
            )[j].1 == reader,
{
    lemma_lowest_arrived(backend, groups, replies, name, groups.len());
}

/// The number of children fits in 32 bits.
pub(crate) proof fn lemma_number_fits(block: Seq<u8>)
    requires
        variable::is_complete(block),
    ensures
        variable::block_children_count(block) <= u32::MAX,
{
    little_endian::lemma_le_bound(block.subrange(4, 8));
}

/// The order by place, number and size, which tells any two entries apart.
spec fn full_order() -> spec_fn(ChildEntry, ChildEntry) -> bool {
    |a: ChildEntry, b: ChildEntry|
        a.offset < b.offset || (a.offset == b.offset && (a.index < b.index || (a.index == b.index
            && a.size <= b.size)))
}

/// The children that a plan holds are in the full order too, since no two have the same number.
proof fn lemma_plan_fully_ordered(block: Seq<u8>, groups: Seq<Seq<ChildEntry>>)
    requires
        variable::is_complete(block),
        child_search::is_plan(block, groups),
    ensures
        vstd::relations::sorted_by(groups.flatten(), full_order()),
{
    let listed = children::all_children(block);
    let sorted = groups.flatten();
    lemma_plan_members(block, groups);
    lemma_number_fits(block);
    assert forall|i: int, j: int| 0 <= i < j < sorted.len() implies #[trigger] full_order()(
        sorted[i],
        sorted[j],
    ) by {
        assert(children::in_order(sorted[i], sorted[j]));
        assert(sorted.contains(sorted[i]) && sorted.contains(sorted[j]));
        assert(listed.contains(sorted[i]) && listed.contains(sorted[j]));
        let a = choose|a: int| 0 <= a < listed.len() && listed[a] == sorted[i];
        let b = choose|b: int| 0 <= b < listed.len() && listed[b] == sorted[j];
        assert(sorted[i].index == a && sorted[j].index == b);
    }
}

/// Of two groupings of the same children, the first groups are the same.
proof fn lemma_same_first_group(a: Seq<Seq<ChildEntry>>, b: Seq<Seq<ChildEntry>>)
    requires
        child_search::is_grouping(a),
        child_search::is_grouping(b),
        a.flatten() == b.flatten(),
        a.len() > 0,
        b.len() > 0,
    ensures
        a[0].len() <= b[0].len(),
{
    let all = a.flatten();
    assert(all == a[0] + a.drop_first().flatten());
    assert(all == b[0] + b.drop_first().flatten());
    let end = b[0].len() as int;
    if a[0].len() > end {
        assert(b.len() > 1);
        assert(b.drop_first()[0] == b[1]);
        assert(b.drop_first().flatten()[0] == b[1][0]);
        assert(all[end] == b[1][0]);
        assert(all[end] == a[0][end]);
        assert(a[0].take(end) =~= all.take(end));
        assert(b[0] =~= all.take(end));
        assert(child_search::is_close(a[0].take(end), a[0][end]));
        assert(!child_search::is_close(b[1 - 1], b[1][0]));
    }
}

/// Two groupings of the same children are the same.
proof fn lemma_same_groups(a: Seq<Seq<ChildEntry>>, b: Seq<Seq<ChildEntry>>)
    requires
        child_search::is_grouping(a),
        child_search::is_grouping(b),
        a.flatten() == b.flatten(),
    ensures
        a == b,
    decreases a.len(),
{
    if a.len() == 0 || b.len() == 0 {
        lemma_flatten_len(a);
        lemma_flatten_len(b);
        assert(a =~= b);
    } else {
        lemma_same_first_group(a, b);
        lemma_same_first_group(b, a);
        let all = a.flatten();
        assert(all == a[0] + a.drop_first().flatten());
        assert(all == b[0] + b.drop_first().flatten());
        let first = all.take(a[0].len() as int);
        let rest = all.skip(a[0].len() as int);
        assert(a[0] =~= first && b[0] =~= first);
        assert(a.drop_first().flatten() =~= rest && b.drop_first().flatten() =~= rest);
        lemma_grouping_rest(a);
        lemma_grouping_rest(b);
        lemma_same_groups(a.drop_first(), b.drop_first());
        assert forall|k: int| 0 <= k < a.len() implies a[k] == b[k] by {
            if k > 0 {
                assert(a[k] == a.drop_first()[k - 1] && b[k] == b.drop_first()[k - 1]);
            }
        }
        assert(a.len() == a.drop_first().len() + 1);
        assert(a =~= b);
    }
}

/// Without its first group a grouping is a grouping.
proof fn lemma_grouping_rest(groups: Seq<Seq<ChildEntry>>)
    requires
        child_search::is_grouping(groups),
        groups.len() > 0,
    ensures
        child_search::is_grouping(groups.drop_first()),
{
    let rest = groups.drop_first();
    assert forall|k: int, i: int|
        0 <= k < rest.len() && 0 < i < rest[k].len() implies child_search::is_close(
        rest[k].take(i),
        #[trigger] rest[k][i],
    ) by {
        assert(child_search::is_close(groups[k + 1].take(i), groups[k + 1][i]));
    }
    assert forall|k: int| 0 < k < rest.len() implies !child_search::is_close(
        rest[k - 1],
        (#[trigger] rest[k])[0],
    ) by {
        assert(!child_search::is_close(groups[k + 1 - 1], groups[k + 1][0]));
    }
}

/// The metadata of a variable determines the groups in which its children are fetched.
pub proof fn law_plan_is_unique(
    block: Seq<u8>,
    a: Seq<Seq<ChildEntry>>,
    b: Seq<Seq<ChildEntry>>,
)
    requires
        variable::is_complete(block),
        child_search::is_plan(block, a),
        child_search::is_plan(block, b),
    ensures
        a == b,
{
    lemma_plan_fully_ordered(block, a);
    lemma_plan_fully_ordered(block, b);
    vstd::seq_lib::lemma_sorted_unique(a.flatten(), b.flatten(), full_order());
    lemma_same_groups(a, b);
}

} // verus!
