//! Looking up a child of a variable by name.
//!
//! The name of a child is in the child's own metadata, so the metadata of all children has to be
//! fetched. Children whose metadata lies close together are fetched with one request.

use std::sync::Arc;

use async_lock::Semaphore;
use vstd::prelude::*;
use vstd::slice::{slice_subrange, slice_to_vec};

use crate::children::{self, collect_children, sort_by_offset, ChildEntry};
use crate::errors::{ErrorView, OmFilesError};
use crate::reader_async::{
    self, OmFileAsyncArray, OmFileReaderAsync, ReaderView, DEFAULT_MAX_CONCURRENCY,
};
use crate::sharing::{self, share};
use crate::variable::{self, OmOffsetSize, OmVariable};

verus! {

/// The gap, in bytes, up to which two neighbouring children are fetched with one request.
pub const MERGE_GAP: u64 = 512;

/// The largest position at which the metadata of one of the children ends.
pub open spec fn furthest_end(children: Seq<ChildEntry>) -> int
    decreases children.len(),
{
    if children.len() == 0 {
        0
    } else {
        let others = furthest_end(children.drop_last());
        if children.last().end() > others {
            children.last().end()
        } else {
            others
        }
    }
}

/// The metadata of `next` starts at most [`MERGE_GAP`] bytes after the furthest end of `group`.
pub open spec fn is_close(group: Seq<ChildEntry>, next: ChildEntry) -> bool {
    next.offset <= furthest_end(group) + MERGE_GAP
}

/// No group is empty; within a group each child is close to those before it, and the first child
/// of a group is not close to the group before.
pub open spec fn is_grouping(groups: Seq<Seq<ChildEntry>>) -> bool {
    &&& forall|k: int| 0 <= k < groups.len() ==> (#[trigger] groups[k]).len() > 0
    &&& forall|k: int, i: int|
        0 <= k < groups.len() && 0 < i < groups[k].len() ==> is_close(
            groups[k].take(i),
            #[trigger] groups[k][i],
        )
    &&& forall|k: int|
        0 < k < groups.len() ==> !is_close(groups[k - 1], (#[trigger] groups[k])[0])
}

/// The groups hold the children of the variable with the metadata `block`, each once, in the order
/// of their place in the file, grouped by closeness.
pub open spec fn is_plan(block: Seq<u8>, groups: Seq<Seq<ChildEntry>>) -> bool {
    &&& groups.flatten().to_multiset() == children::all_children(block).to_multiset()
    &&& children::is_ordered(groups.flatten())
    &&& is_grouping(groups)
}

/// The furthest end is the end of one of the children, and none ends after it.
pub(crate) proof fn lemma_furthest_end(children: Seq<ChildEntry>)
    ensures
        forall|i: int|
            0 <= i < children.len() ==> (#[trigger] children[i]).end() <= furthest_end(children),
        children.len() > 0 ==> exists|i: int|
            0 <= i < children.len() && (#[trigger] children[i]).end() == furthest_end(children),
        furthest_end(children) >= 0,
    decreases children.len(),
{
    if children.len() > 0 {
        let others = children.drop_last();
        lemma_furthest_end(others);
        assert forall|i: int| 0 <= i < children.len() implies (#[trigger] children[i]).end()
            <= furthest_end(children) by {
            if i < others.len() {
                assert(others[i] == children[i]);
            }
        }
        if children.last().end() > furthest_end(others) || others.len() == 0 {
            assert(children[children.len() - 1].end() == furthest_end(children));
        } else {
            let i = choose|i: int|
                0 <= i < others.len() && (#[trigger] others[i]).end() == furthest_end(others);
            assert(children[i].end() == furthest_end(children));
        }
    }
}

/// The bytes to fetch for a group: from the start of the first child to the furthest end.
pub open spec fn group_request(group: Seq<ChildEntry>) -> OmOffsetSize {
    OmOffsetSize {
        offset: group[0].offset,
        size: (furthest_end(group) - group[0].offset) as u64,
    }
}

/// The bytes of `child` among `data`, the bytes of the file from `start` on.
pub open spec fn child_bytes(child: ChildEntry, start: u64, data: Seq<u8>) -> Seq<u8> {
    data.subrange(child.offset - start, child.end() - start)
}

/// The reader of `child`, given the bytes of its metadata.
pub open spec fn child_reader<Backend>(
    backend: Arc<Backend>,
    child: ChildEntry,
    bytes: Seq<u8>,
) -> (u32, ReaderView<Backend>) {
    (
        child.index,
        ReaderView {
            backend,
            block: bytes,
            offset_size: OmOffsetSize { offset: child.offset, size: child.size },
        },
    )
}

/// What the bytes of a group come to: a reader of each child, or an error if the metadata of one
/// of them is not complete.
pub open spec fn group_readers<Backend>(
    backend: Arc<Backend>,
    group: Seq<ChildEntry>,
    data: Seq<u8>,
) -> Result<Seq<(u32, ReaderView<Backend>)>, ErrorView> {
    let start = group[0].offset;
    if forall|i: int|
        0 <= i < group.len() ==> variable::is_complete(
            child_bytes(#[trigger] group[i], start, data),
        ) {
        Ok(
            group.map_values(
                |child: ChildEntry| child_reader(backend, child, child_bytes(child, start, data)),
            ),
        )
    } else {
        Err(ErrorView::NotAnOmFile)
    }
}

/// A list of numbered readers, each by its view.
pub open spec fn numbered_view<Backend>(readers: Seq<(u32, OmFileReaderAsync<Backend>)>) -> Seq<
    (u32, ReaderView<Backend>),
> {
    readers.map_values(|numbered: (u32, OmFileReaderAsync<Backend>)| (numbered.0, numbered.1@))
}

/// The outcome of reading a group, by its view.
pub open spec fn numbered_outcome<Backend>(
    outcome: Result<Vec<(u32, OmFileReaderAsync<Backend>)>, OmFilesError>,
) -> Result<Seq<(u32, ReaderView<Backend>)>, ErrorView> {
    match outcome {
        Ok(readers) => Ok(numbered_view(readers@)),
        Err(error) => Err(error@),
    }
}

/// Children whose metadata is fetched with one request, in the order of their place in the file.
#[derive(Debug)]
pub struct ChildGroup {
    members: Vec<ChildEntry>,
}

impl View for ChildGroup {
    type V = Seq<ChildEntry>;

    closed spec fn view(&self) -> Seq<ChildEntry> {
        self.members@
    }
}

/// The groups, each by its view.
pub open spec fn groups_view(groups: Seq<ChildGroup>) -> Seq<Seq<ChildEntry>> {
    groups.map_values(|group: ChildGroup| group@)
}

impl ChildGroup {
    #[verifier::type_invariant]
    spec fn well_formed(self) -> bool {
        &&& self.members@.len() > 0
        &&& children::is_ordered(self.members@)
        &&& children::children_fit(self.members@)
    }

    /// The children of the group.
    pub fn members(&self) -> (members: &Vec<ChildEntry>)
        ensures
            members@ == self@,
            members@.len() > 0,
            children::is_ordered(members@),
            children::children_fit(members@),
    {
        proof {
            use_type_invariant(self);
        }
        &self.members
    }

    /// The bytes to fetch for the group.
    pub fn request(&self) -> (request: OmOffsetSize)
        ensures
            request == group_request(self@),
            forall|i: int|
                0 <= i < self@.len() ==> request.offset <= (#[trigger] self@[i]).offset
                    && self@[i].end() <= request.offset + request.size,
    {
        let members = self.members();
        let start: u64 = members[0].offset;
        let mut end: u64 = 0;
        let mut at: usize = 0;
        while at < members.len()
            invariant
                at <= members@.len(),
                children::children_fit(members@),
                end == furthest_end(members@.take(at as int)),
            decreases members@.len() - at,
        {
            let child_end: u64 = members[at].offset + members[at].size;
            assert(members@.take(at + 1).drop_last() =~= members@.take(at as int));
            if child_end > end {
                end = child_end;
            }
            at = at + 1;
        }
        proof {
            assert(members@.take(at as int) =~= members@);
            lemma_furthest_end(members@);
            assert(members@[0].end() <= end);
        }
        OmOffsetSize::new(start, end - start)
    }

    /// Makes a reader of each child from the bytes of the group.
    pub fn read<Backend>(&self, backend: &Arc<Backend>, data: &[u8]) -> (readers: Result<
        Vec<(u32, OmFileReaderAsync<Backend>)>,
        OmFilesError,
    >)
        requires
            data@.len() >= group_request(self@).size,
        ensures
            numbered_outcome(readers) == group_readers(*backend, self@, data@),
    {
        let request = self.request();
        let members = self.members();
        let mut readers: Vec<(u32, OmFileReaderAsync<Backend>)> = Vec::new();
        let mut at: usize = 0;
        assert(data@.len() <= data.len());
        while at < members.len()
            invariant
                at <= members@.len(),
                members@ == self@,
                request == group_request(members@),
                data@.len() >= request.size,
                data@.len() <= usize::MAX,
                forall|i: int|
                    0 <= i < members@.len() ==> request.offset <= (#[trigger] members@[i]).offset
                        && members@[i].end() <= request.offset + request.size,
                forall|i: int|
                    0 <= i < at ==> variable::is_complete(
                        child_bytes(#[trigger] members@[i], request.offset, data@),
                    ),
                numbered_view(readers@) =~= members@.take(at as int).map_values(
                    |child: ChildEntry|
                        child_reader(
                            *backend,
                            child,
                            child_bytes(child, request.offset, data@),
                        ),
                ),
            decreases members@.len() - at,
        {
            let child = members[at];
            let start: usize = (child.offset - request.offset) as usize;
            let bytes = slice_to_vec(slice_subrange(data, start, start + child.size as usize));
            assert(bytes@ =~= child_bytes(child, request.offset, data@));
            match OmVariable::new(bytes) {
                Ok(variable) => {
                    let location = OmOffsetSize::new(child.offset, child.size);
                    let ghost before = readers@;
                    readers.push(
                        (
                            child.index,
                            OmFileReaderAsync::from_parts(share(backend), variable, location),
                        ),
                    );
                    assert(numbered_view(readers@) =~= numbered_view(before).push(
                        child_reader(*backend, child, child_bytes(child, request.offset, data@)),
                    ));
                },
                Err(error) => {
                    assert(!variable::is_complete(
                        child_bytes(members@[at as int], request.offset, data@),
                    ));
                    return Err(error);
                },
            }
            at = at + 1;
        }
        assert(members@.take(at as int) =~= members@);
        Ok(readers)
    }
}

/// Closing a group keeps what holds of the groups before it.
proof fn lemma_close_group(
    sorted: Seq<ChildEntry>,
    groups: Seq<Seq<ChildEntry>>,
    start: int,
    end: int,
)
    requires
        0 <= start < end <= sorted.len(),
        groups.flatten() == sorted.take(start),
        is_grouping(groups),
        groups.len() > 0 ==> !is_close(groups.last(), sorted[start]),
        forall|i: int|
            start < i < end ==> is_close(sorted.subrange(start, i), #[trigger] sorted[i]),
    ensures
        groups.push(sorted.subrange(start, end)).flatten() == sorted.take(end),
        is_grouping(groups.push(sorted.subrange(start, end))),
{
    let closed = sorted.subrange(start, end);
    let all = groups.push(closed);
    groups.lemma_flatten_push(closed);
    assert(sorted.take(end) =~= sorted.take(start) + closed);
    assert forall|k: int, i: int| 0 <= k < all.len() && 0 < i < all[k].len() implies is_close(
        all[k].take(i),
        #[trigger] all[k][i],
    ) by {
        if k < groups.len() {
            assert(all[k] == groups[k]);
            assert(is_close(groups[k].take(i), groups[k][i]));
        } else {
            assert(closed.take(i) =~= sorted.subrange(start, start + i));
            assert(is_close(sorted.subrange(start, start + i), sorted[start + i]));
        }
    }
    assert forall|k: int| 0 < k < all.len() implies !is_close(
        all[k - 1],
        (#[trigger] all[k])[0],
    ) by {
        if k < groups.len() {
            assert(!is_close(groups[k - 1], groups[k][0]));
        }
    }
}

/// Puts children into groups: each child joins the group before it if it is close to that group.
pub fn group_children(sorted: &Vec<ChildEntry>) -> (groups: Vec<ChildGroup>)
    requires
        children::is_ordered(sorted@),
        children::children_fit(sorted@),
    ensures
        groups_view(groups@).flatten() == sorted@,
        is_grouping(groups_view(groups@)),
{
    let mut groups: Vec<ChildGroup> = Vec::new();
    let mut current: Vec<ChildEntry> = Vec::new();
    let mut end: u64 = 0;
    let ghost mut start: int = 0;
    let mut at: usize = 0;
    assert(groups_view(groups@).flatten() =~= sorted@.take(0));
    while at < sorted.len()
        invariant
            0 <= start <= at <= sorted@.len(),
            start == at ==> at == 0 && groups@.len() == 0,
            children::is_ordered(sorted@),
            children::children_fit(sorted@),
            current@ == sorted@.subrange(start, at as int),
            end == furthest_end(current@),
            groups_view(groups@).flatten() == sorted@.take(start),
            is_grouping(groups_view(groups@)),
            groups@.len() > 0 ==> !is_close(
                groups_view(groups@).last(),
                sorted@[start],
            ),
            forall|i: int|
                start < i < at ==> is_close(sorted@.subrange(start, i), #[trigger] sorted@[i]),
        decreases sorted@.len() - at,
    {
        let child = sorted[at];
        if current.len() > 0 && child.offset > end.saturating_add(MERGE_GAP) {
            let ghost before = groups_view(groups@);
            proof {
                lemma_close_group(sorted@, before, start, at as int);
            }
            groups.push(ChildGroup { members: current });
            proof {
                assert(groups_view(groups@) =~= before.push(sorted@.subrange(start, at as int)));
                start = at as int;
            }
            current = Vec::new();
            end = 0;
        }
        let ghost earlier = current@;
        assert(end == furthest_end(earlier));
        let child_end: u64 = child.offset + child.size;
        if child_end > end {
            end = child_end;
        }
        current.push(child);
        assert(current@.drop_last() =~= earlier);
        at = at + 1;
        assert(current@ =~= sorted@.subrange(start, at as int));
    }
    if current.len() > 0 {
        let ghost before = groups_view(groups@);
        proof {
            lemma_close_group(sorted@, before, start, at as int);
        }
        groups.push(ChildGroup { members: current });
        assert(groups_view(groups@) =~= before.push(sorted@.subrange(start, at as int)));
    }
    assert(sorted@.take(at as int) =~= sorted@);
    groups
}

/// The variable of the reader is called `name`.
pub open spec fn is_named<Backend>(reader: ReaderView<Backend>, name: Seq<char>) -> bool {
    variable::block_name(reader.block) == vstd::utf8::encode_utf8(name)
}

/// The reader with the lowest number among `found` and those of `readers` that are called `name`;
/// among equal numbers the first.
pub open spec fn lowest_match<Backend>(
    found: Option<(u32, ReaderView<Backend>)>,
    readers: Seq<(u32, ReaderView<Backend>)>,
    name: Seq<char>,
) -> Option<(u32, ReaderView<Backend>)>
    decreases readers.len(),
{
    if readers.len() == 0 {
        found
    } else {
        let best = lowest_match(found, readers.drop_last(), name);
        let (index, reader) = readers.last();
        if is_named(reader, name) && (best matches Some((lowest, _)) ==> index < lowest) {
            Some((index, reader))
        } else {
            best
        }
    }
}

/// A numbered reader, or none, by its view.
pub open spec fn found_view<Backend>(
    found: Option<(u32, OmFileReaderAsync<Backend>)>,
) -> Option<(u32, ReaderView<Backend>)> {
    match found {
        Some((index, reader)) => Some((index, reader@)),
        None => None,
    }
}

/// Keeps the reader with the lowest number among `found` and those of `readers` that are called
/// `name`.
pub fn keep_lowest_match<Backend>(
    found: Option<(u32, OmFileReaderAsync<Backend>)>,
    readers: Vec<(u32, OmFileReaderAsync<Backend>)>,
    name: &str,
) -> (lowest: Option<(u32, OmFileReaderAsync<Backend>)>)
    ensures
        found_view(lowest) == lowest_match(found_view(found), numbered_view(readers@), name@),
{
    let mut lowest = found;
    let ghost all = numbered_view(readers@);
    for numbered in remaining: readers.into_iter()
        invariant
            all == numbered_view(remaining.seq()),
            found_view(lowest) == lowest_match(
                found_view(found),
                all.take(remaining.index() as int),
                name@,
            ),
    {
        let (index, reader) = numbered;
        proof {
            let at = remaining.index() as int;
            assert(all.take(at + 1).drop_last() =~= all.take(at));
            assert(all.take(at + 1).last() == (index, reader@));
        }
        if reader.variable().is_named(name) {
            let is_lower = match &lowest {
                Some((best, _)) => index < *best,
                None => true,
            };
            if is_lower {
                lowest = Some((index, reader));
            }
        }
    }
    assert(all.take(all.len() as int) =~= all);
    lowest
}

/// What the reply to the request for a group comes to.
pub open spec fn group_outcome<Backend>(
    backend: Arc<Backend>,
    group: Seq<ChildEntry>,
    reply: Result<Seq<u8>, ErrorView>,
) -> Result<Seq<(u32, ReaderView<Backend>)>, ErrorView> {
    match reply {
        Ok(data) => group_readers(backend, group, data),
        Err(error) => Err(error),
    }
}

/// The child called `name` with the lowest number among those of the first `count` groups; groups
/// that could not be fetched or read are passed over.
pub open spec fn found_among<Backend>(
    backend: Arc<Backend>,
    groups: Seq<Seq<ChildEntry>>,
    replies: Seq<Result<Seq<u8>, ErrorView>>,
    name: Seq<char>,
    count: nat,
) -> Option<(u32, ReaderView<Backend>)>
    decreases count,
{
    if count == 0 {
        None
    } else {
        let last = count - 1;
        let found = found_among(backend, groups, replies, name, last as nat);
        match group_outcome(backend, groups[last], replies[last]) {
            Ok(readers) => lowest_match(found, readers, name),
            Err(_) => found,
        }
    }
}

/// The replies of a backend, each by its view.
pub open spec fn replies_view(replies: Seq<Result<Vec<u8>, OmFilesError>>) -> Seq<
    Result<Seq<u8>, ErrorView>,
> {
    replies.map_values(|reply: Result<Vec<u8>, OmFilesError>| reader_async::reply_view(reply))
}

/// There is a reply for each group, with as many bytes as were asked for if it is no error.
pub open spec fn replies_fit(
    groups: Seq<Seq<ChildEntry>>,
    replies: Seq<Result<Seq<u8>, ErrorView>>,
) -> bool {
    &&& replies.len() == groups.len()
    &&& forall|k: int|
        0 <= k < groups.len() ==> ((#[trigger] replies[k]) matches Ok(data) ==> data.len()
            >= group_request(groups[k]).size)
}

/// The requests that a search among the children of a variable makes.
#[derive(Debug)]
pub struct ChildSearch {
    groups: Vec<ChildGroup>,
    semaphore: Arc<Semaphore>,
}

/// What a [`ChildSearch`] stands for.
pub struct ChildSearchView {
    pub groups: Seq<Seq<ChildEntry>>,
    pub max_concurrency: nat,
}

impl View for ChildSearch {
    type V = ChildSearchView;

    closed spec fn view(&self) -> ChildSearchView {
        ChildSearchView {
            groups: groups_view(self.groups@),
            max_concurrency: sharing::semaphore_limit(*self.semaphore),
        }
    }
}

impl ChildSearch {
    /// Plans the requests for the metadata of all children of `parent`.
    pub fn new(parent: &OmVariable) -> (search: ChildSearch)
        requires
            children::children_fit(children::all_children(parent@)),
        ensures
            is_plan(parent@, search@.groups),
            search@.max_concurrency == DEFAULT_MAX_CONCURRENCY,
    {
        let listed = collect_children(parent);
        let sorted = sort_by_offset(listed);
        proof {
            lemma_same_children_fit(listed@, sorted@);
        }
        ChildSearch {
            groups: group_children(&sorted),
            semaphore: Arc::new(Semaphore::new(DEFAULT_MAX_CONCURRENCY)),
        }
    }

    /// The groups of children, one for each request.
    pub fn groups(&self) -> (groups: &Vec<ChildGroup>)
        ensures
            groups_view(groups@) == self@.groups,
    {
        &self.groups
    }

    /// The permits for concurrent requests.
    pub fn semaphore(&self) -> (semaphore: &Arc<Semaphore>)
        ensures
            sharing::semaphore_limit(**semaphore) == self@.max_concurrency,
    {
        &self.semaphore
    }
}

proof fn lemma_same_children_fit(a: Seq<ChildEntry>, b: Seq<ChildEntry>)
    requires
        a.to_multiset() == b.to_multiset(),
        children::children_fit(a),
    ensures
        children::children_fit(b),
{
    a.to_multiset_ensures();
    b.to_multiset_ensures();
    assert forall|i: int| 0 <= i < b.len() implies (#[trigger] b[i]).end() <= u64::MAX by {
        assert(b.contains(b[i]));
        assert(a.to_multiset().count(b[i]) > 0);
        assert(a.contains(b[i]));
    }
}

/// Looks up the child called `name`, given the replies to the requests of `search`.
///
/// Of several children with that name, the one with the lowest number is returned.
pub fn find_child_by_name<Backend>(
    backend: &Arc<Backend>,
    search: &ChildSearch,
    replies: &Vec<Result<Vec<u8>, OmFilesError>>,
    name: &str,
) -> (child: Option<OmFileReaderAsync<Backend>>)
    requires
        replies_fit(search@.groups, replies_view(replies@)),
    ensures
        child_view(child) == found_child(
            *backend,
            search@.groups,
            replies_view(replies@),
            name@,
        ),
{
    let groups = search.groups();
    let mut found: Option<(u32, OmFileReaderAsync<Backend>)> = None;
    let mut at: usize = 0;
    while at < groups.len()
        invariant
            at <= groups@.len(),
            groups_view(groups@) == search@.groups,
            replies_fit(search@.groups, replies_view(replies@)),
            found_view(found) == found_among(
                *backend,
                search@.groups,
                replies_view(replies@),
                name@,
                at as nat,
            ),
        decreases groups@.len() - at,
    {
        assert(replies_view(replies@)[at as int] == reader_async::reply_view(replies@[at as int]));
        if let Ok(data) = &replies[at] {
            if let Ok(readers) = groups[at].read(backend, data.as_slice()) {
                found = keep_lowest_match(found, readers, name);
            }
        }
        at = at + 1;
    }
    match found {
        Some((_, reader)) => Some(reader),
        None => None,
    }
}

/// What a search comes to, as the view of the child.
pub open spec fn found_child<Backend>(
    backend: Arc<Backend>,
    groups: Seq<Seq<ChildEntry>>,
    replies: Seq<Result<Seq<u8>, ErrorView>>,
    name: Seq<char>,
) -> Option<ReaderView<Backend>> {
    match found_among(backend, groups, replies, name, groups.len()) {
        Some((_, reader)) => Some(reader),
        None => None,
    }
}

/// A child that was found, or none, by its view.
pub open spec fn child_view<Backend>(child: Option<OmFileReaderAsync<Backend>>) -> Option<
    ReaderView<Backend>,
> {
    match child {
        Some(reader) => Some(reader@),
        None => None,
    }
}

impl<Backend> OmFileReaderAsync<Backend> {
    /// Looks up the child called `name`, given the replies to the requests of `search`, the
    /// search among the children of this variable.
    pub fn get_child_by_name(
        &self,
        search: &ChildSearch,
        replies: &Vec<Result<Vec<u8>, OmFilesError>>,
        name: &str,
    ) -> (child: Option<OmFileReaderAsync<Backend>>)
        requires
            is_plan(self@.block, search@.groups),
            replies_fit(search@.groups, replies_view(replies@)),
        ensures
            child_view(child) == found_child(
                self@.backend,
                search@.groups,
                replies_view(replies@),
                name@,
            ),
    {
        find_child_by_name(self.backend(), search, replies, name)
    }
}

impl<'a, Backend> OmFileAsyncArray<'a, Backend> {
    /// Looks up the child called `name`, given the replies to the requests of `search`, the
    /// search among the children of this variable.
    pub fn get_child_by_name(
        &self,
        search: &ChildSearch,
        replies: &Vec<Result<Vec<u8>, OmFilesError>>,
        name: &str,
    ) -> (child: Option<OmFileReaderAsync<Backend>>)
        requires
            is_plan(self@.reader.block, search@.groups),
            replies_fit(search@.groups, replies_view(replies@)),
        ensures
            child_view(child) == found_child(
                self@.reader.backend,
                search@.groups,
                replies_view(replies@),
                name@,
            ),
    {
        find_child_by_name(self.backend(), search, replies, name)
    }
}

} // verus!
