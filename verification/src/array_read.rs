//! Reading a region of an array: which step follows which, and what ends the read.
//!
//! The look-up table of an array is read in blocks. Each block lists data chunks, which are
//! fetched together and then decoded one after the other into the target. [`ArrayRead`] says what
//! to do next; the caller does it and hands back what came of it.

use std::ops::Range;

use vstd::prelude::*;
use vstd::slice::slice_to_vec;

use crate::errors::{self, ErrorView, OmFilesError};
use crate::reader_async::{ArrayView, OmFileAsyncArray};
use crate::variable::{self, OmOffsetSize};

verus! {

/// A range of chunk numbers; the upper bound is not part of it.
#[derive(Debug, Clone, Copy, PartialEq, Eq, Structural)]
pub struct ChunkRange {
    pub lower_bound: u64,
    pub upper_bound: u64,
}

/// A request for the data of some chunks.
#[derive(Debug, Clone, Copy, PartialEq, Eq, Structural)]
pub struct ChunkRead {
    pub offset: u64,
    pub count: u64,
    pub chunks: ChunkRange,
}

/// What the decoder needs to know of a read.
#[derive(Debug)]
pub struct ReadParameters {
    /// The region to read, as a range for each dimension.
    pub dim_read: Vec<Range<u64>>,
    /// Where in the target the region starts, in each dimension.
    pub cube_offset: Vec<u64>,
    /// The size of the target in each dimension.
    pub cube_dimension: Vec<u64>,
    /// The largest request, in bytes.
    pub io_size_max: u64,
    /// The size, in bytes, below which requests are merged.
    pub io_size_merge: u64,
}

/// What a read does next.
#[derive(Debug)]
pub enum ReadState<Bytes> {
    /// Set up the decoder with these parameters.
    Prepare(ReadParameters),
    /// Ask the decoder for the next block of the look-up table.
    NextIndex,
    /// Fetch that block.
    FetchIndex(OmOffsetSize),
    /// Ask the decoder which chunks the block lists.
    ListChunks(Bytes),
    /// Fetch the chunks; `data` holds those that have arrived, in the order of the list.
    FetchChunks { reads: Vec<ChunkRead>, data: Vec<Bytes> },
    /// Get hold of the memory of the target.
    BorrowOutput { reads: Vec<ChunkRead>, data: Vec<Bytes> },
    /// Decode chunk number `decoded` of the list; `failure` is the first failure among those
    /// before it.
    Decode {
        reads: Vec<ChunkRead>,
        data: Vec<Bytes>,
        decoded: usize,
        failure: Option<OmFilesError>,
    },
    /// Nothing: the read has ended.
    Finished(Result<(), OmFilesError>),
}

/// What came of a step.
#[derive(Debug)]
pub enum ReadEvent<Bytes> {
    /// The decoder was set up, or refused the region.
    Prepared(Result<(), OmFilesError>),
    /// The decoder named the next block, or there is none left.
    IndexRead(Option<OmOffsetSize>),
    /// The block was fetched.
    IndexData(Result<Bytes, OmFilesError>),
    /// The decoder listed the chunks of the block.
    ChunkList(Result<Vec<ChunkRead>, OmFilesError>),
    /// The next chunk of the list was fetched.
    ChunkData(Result<Bytes, OmFilesError>),
    /// The target is one block of memory, or it is not.
    Output { contiguous: bool },
    /// The chunk was decoded.
    Decoded(Result<(), OmFilesError>),
}

/// [`ReadParameters`] with their lists as sequences.
pub struct ParametersView {
    pub dim_read: Seq<Range<u64>>,
    pub cube_offset: Seq<u64>,
    pub cube_dimension: Seq<u64>,
    pub io_size_max: u64,
    pub io_size_merge: u64,
}

impl ParametersView {
    /// The parameters are for `count` dimensions.
    pub open spec fn have_dimensions(self, count: nat) -> bool {
        &&& self.dim_read.len() == count
        &&& self.cube_offset.len() == count
        &&& self.cube_dimension.len() == count
    }
}

/// A [`ReadState`] with its lists as sequences.
pub enum ReadStateView<Bytes> {
    Prepare(ParametersView),
    NextIndex,
    FetchIndex(OmOffsetSize),
    ListChunks(Bytes),
    FetchChunks { reads: Seq<ChunkRead>, data: Seq<Bytes> },
    BorrowOutput { reads: Seq<ChunkRead>, data: Seq<Bytes> },
    Decode { reads: Seq<ChunkRead>, data: Seq<Bytes>, decoded: int, failure: Option<ErrorView> },
    Finished(Result<(), ErrorView>),
}

/// A [`ReadEvent`] with its list as a sequence.
pub enum ReadEventView<Bytes> {
    Prepared(Result<(), ErrorView>),
    IndexRead(Option<OmOffsetSize>),
    IndexData(Result<Bytes, ErrorView>),
    ChunkList(Result<Seq<ChunkRead>, ErrorView>),
    ChunkData(Result<Bytes, ErrorView>),
    Output { contiguous: bool },
    Decoded(Result<(), ErrorView>),
}

impl View for ReadParameters {
    type V = ParametersView;

    open spec fn view(&self) -> ParametersView {
        ParametersView {
            dim_read: self.dim_read@,
            cube_offset: self.cube_offset@,
            cube_dimension: self.cube_dimension@,
            io_size_max: self.io_size_max,
            io_size_merge: self.io_size_merge,
        }
    }
}

impl<Bytes> View for ReadState<Bytes> {
    type V = ReadStateView<Bytes>;

    open spec fn view(&self) -> ReadStateView<Bytes> {
        match *self {
            ReadState::Prepare(parameters) => ReadStateView::Prepare(parameters@),
            ReadState::NextIndex => ReadStateView::NextIndex,
            ReadState::FetchIndex(read) => ReadStateView::FetchIndex(read),
            ReadState::ListChunks(bytes) => ReadStateView::ListChunks(bytes),
            ReadState::FetchChunks { reads, data } => ReadStateView::FetchChunks {
                reads: reads@,
                data: data@,
            },
            ReadState::BorrowOutput { reads, data } => ReadStateView::BorrowOutput {
                reads: reads@,
                data: data@,
            },
            ReadState::Decode { reads, data, decoded, failure } => ReadStateView::Decode {
                reads: reads@,
                data: data@,
                decoded: decoded as int,
                failure: match failure {
                    Some(error) => Some(error@),
                    None => None,
                },
            },
            ReadState::Finished(result) => ReadStateView::Finished(errors::result_view(result)),
        }
    }
}

impl<Bytes> View for ReadEvent<Bytes> {
    type V = ReadEventView<Bytes>;

    open spec fn view(&self) -> ReadEventView<Bytes> {
        match *self {
            ReadEvent::Prepared(result) => ReadEventView::Prepared(errors::result_view(result)),
            ReadEvent::IndexRead(read) => ReadEventView::IndexRead(read),
            ReadEvent::IndexData(reply) => ReadEventView::IndexData(errors::result_view(reply)),
            ReadEvent::ChunkList(Ok(reads)) => ReadEventView::ChunkList(Ok(reads@)),
            ReadEvent::ChunkList(Err(error)) => ReadEventView::ChunkList(Err(error@)),
            ReadEvent::ChunkData(reply) => ReadEventView::ChunkData(errors::result_view(reply)),
            ReadEvent::Output { contiguous } => ReadEventView::Output { contiguous },
            ReadEvent::Decoded(result) => ReadEventView::Decoded(errors::result_view(result)),
        }
    }
}

impl<Bytes> ReadStateView<Bytes> {
    /// Chunks arrive and are decoded in the order of the list, none before its turn.
    pub open spec fn well_formed(self) -> bool {
        match self {
            ReadStateView::FetchChunks { reads, data } => data.len() < reads.len(),
            ReadStateView::BorrowOutput { reads, data } => data.len() == reads.len(),
            ReadStateView::Decode { reads, data, decoded, failure: _ } => {
                &&& data.len() == reads.len()
                &&& 0 <= decoded < reads.len()
            },
            _ => true,
        }
    }
}

/// The state once `data` has arrived: the rest is fetched, or the target is needed.
pub open spec fn with_data<Bytes>(reads: Seq<ChunkRead>, data: Seq<Bytes>) -> ReadStateView<
    Bytes,
> {
    if data.len() < reads.len() {
        ReadStateView::FetchChunks { reads, data }
    } else {
        ReadStateView::BorrowOutput { reads, data }
    }
}

/// The state once `decoded` chunks are decoded: the rest is decoded, and then the first failure
/// ends the read, or the next block follows.
pub open spec fn with_decoded<Bytes>(
    reads: Seq<ChunkRead>,
    data: Seq<Bytes>,
    decoded: int,
    failure: Option<ErrorView>,
) -> ReadStateView<Bytes> {
    if decoded < reads.len() {
        ReadStateView::Decode { reads, data, decoded, failure }
    } else {
        match failure {
            Some(error) => ReadStateView::Finished(Err(error)),
            None => ReadStateView::NextIndex,
        }
    }
}

/// The state that follows `state` on `event`. An event that the state does not wait for changes
/// nothing.
pub open spec fn read_step<Bytes>(
    state: ReadStateView<Bytes>,
    event: ReadEventView<Bytes>,
) -> ReadStateView<Bytes> {
    match (state, event) {
        (ReadStateView::Prepare(_), ReadEventView::Prepared(result)) => match result {
            Ok(_) => ReadStateView::NextIndex,
            Err(error) => ReadStateView::Finished(Err(error)),
        },
        (ReadStateView::NextIndex, ReadEventView::IndexRead(read)) => match read {
            Some(read) => ReadStateView::FetchIndex(read),
            None => ReadStateView::Finished(Ok(())),
        },
        (ReadStateView::FetchIndex(_), ReadEventView::IndexData(reply)) => match reply {
            Ok(bytes) => ReadStateView::ListChunks(bytes),
            Err(error) => ReadStateView::Finished(Err(error)),
        },
        (ReadStateView::ListChunks(_), ReadEventView::ChunkList(list)) => match list {
            Ok(reads) => with_data(reads, Seq::empty()),
            Err(error) => ReadStateView::Finished(Err(error)),
        },
        (
            ReadStateView::FetchChunks { reads, data },
            ReadEventView::ChunkData(reply),
        ) => match reply {
            Ok(bytes) => with_data(reads, data.push(bytes)),
            Err(error) => ReadStateView::Finished(Err(ErrorView::TaskError(error.message()))),
        },
        (
            ReadStateView::BorrowOutput { reads, data },
            ReadEventView::Output { contiguous },
        ) => if contiguous {
            with_decoded(reads, data, 0, None)
        } else {
            ReadStateView::Finished(Err(ErrorView::ArrayNotContiguous))
        },
        (
            ReadStateView::Decode { reads, data, decoded, failure },
            ReadEventView::Decoded(result),
        ) => with_decoded(
            reads,
            data,
            decoded + 1,
            match (failure, result) {
                (None, Err(error)) => Some(error),
                _ => failure,
            },
        ),
        _ => state,
    }
}

/// A read of a region of an array.
#[derive(Debug)]
pub struct ArrayRead<Bytes> {
    state: ReadState<Bytes>,
}

impl<Bytes> View for ArrayRead<Bytes> {
    type V = ReadStateView<Bytes>;

    closed spec fn view(&self) -> ReadStateView<Bytes> {
        self.state@
    }
}

impl<Bytes> ArrayRead<Bytes> {
    #[verifier::type_invariant]
    spec fn in_turn(self) -> bool {
        self.state@.well_formed()
    }

    /// A read that has not started.
    pub fn new(parameters: ReadParameters) -> (read: ArrayRead<Bytes>)
        ensures
            read@ == ReadStateView::<Bytes>::Prepare(parameters@),
    {
        ArrayRead { state: ReadState::Prepare(parameters) }
    }

    /// What to do next.
    pub fn state(&self) -> (state: &ReadState<Bytes>)
        ensures
            state@ == self@,
            self@.well_formed(),
    {
        proof {
            use_type_invariant(self);
        }
        &self.state
    }

    /// What to do next, without the read.
    pub fn into_state(self) -> (state: ReadState<Bytes>)
        ensures
            state@ == self@,
            self@.well_formed(),
    {
        proof {
            use_type_invariant(&self);
        }
        self.state
    }

    /// Goes on with what came of the step.
    pub fn step(self, event: ReadEvent<Bytes>) -> (next: ArrayRead<Bytes>)
        ensures
            next@ == read_step(self@, event@),
    {
        proof {
            use_type_invariant(&self);
        }
        let state = match (self.state, event) {
            (ReadState::Prepare(_), ReadEvent::Prepared(result)) => match result {
                Ok(_) => ReadState::NextIndex,
                Err(error) => ReadState::Finished(Err(error)),
            },
            (ReadState::NextIndex, ReadEvent::IndexRead(read)) => match read {
                Some(read) => ReadState::FetchIndex(read),
                None => ReadState::Finished(Ok(())),
            },
            (ReadState::FetchIndex(_), ReadEvent::IndexData(reply)) => match reply {
                Ok(bytes) => ReadState::ListChunks(bytes),
                Err(error) => ReadState::Finished(Err(error)),
            },
            (ReadState::ListChunks(_), ReadEvent::ChunkList(list)) => match list {
                Ok(reads) => Self::fetch_or_borrow(reads, Vec::new()),
                Err(error) => ReadState::Finished(Err(error)),
            },
            (
                ReadState::FetchChunks { reads, data },
                ReadEvent::ChunkData(reply),
            ) => match reply {
                Ok(bytes) => {
                    let mut data = data;
                    data.push(bytes);
                    Self::fetch_or_borrow(reads, data)
                },
                Err(error) => ReadState::Finished(Err(OmFilesError::TaskError(error.message()))),
            },
            (
                ReadState::BorrowOutput { reads, data },
                ReadEvent::Output { contiguous },
            ) => if contiguous {
                Self::decode_or_go_on(reads, data, 0, None)
            } else {
                ReadState::Finished(Err(OmFilesError::ArrayNotContiguous))
            },
            (
                ReadState::Decode { reads, data, decoded, failure },
                ReadEvent::Decoded(result),
            ) => {
                assert(decoded < reads.len());
                let failure = match (failure, result) {
                    (None, Err(error)) => Some(error),
                    (failure, _) => failure,
                };
                Self::decode_or_go_on(reads, data, decoded + 1, failure)
            },
            (state, _) => state,
        };
        ArrayRead { state }
    }

    fn fetch_or_borrow(reads: Vec<ChunkRead>, data: Vec<Bytes>) -> (state: ReadState<Bytes>)
        ensures
            state@ == with_data(reads@, data@),
    {
        if data.len() < reads.len() {
            ReadState::FetchChunks { reads, data }
        } else {
            ReadState::BorrowOutput { reads, data }
        }
    }

    fn decode_or_go_on(
        reads: Vec<ChunkRead>,
        data: Vec<Bytes>,
        decoded: usize,
        failure: Option<OmFilesError>,
    ) -> (state: ReadState<Bytes>)
        ensures
            state@ == with_decoded(
                reads@,
                data@,
                decoded as int,
                match failure {
                    Some(error) => Some(error@),
                    None => None,
                },
            ),
    {
        if decoded < reads.len() {
            ReadState::Decode { reads, data, decoded, failure }
        } else {
            match failure {
                Some(error) => ReadState::Finished(Err(error)),
                None => ReadState::NextIndex,
            }
        }
    }
}

/// A read of a region into a new array of just the size of the region.
#[derive(Debug)]
pub struct ReadPlan<Bytes> {
    /// The shape of the array to read into.
    pub shape: Vec<usize>,
    /// The read that fills the array.
    pub read: ArrayRead<Bytes>,
}

/// How many elements a region has in each dimension.
pub open spec fn region_size(dim_read: Seq<Range<u64>>) -> Seq<u64> {
    dim_read.map_values(|range: Range<u64>| (range.end - range.start) as u64)
}

/// The parameters of a read from `array`, with the array's limits on the sizes of requests.
pub open spec fn read_parameters<Backend>(
    array: ArrayView<Backend>,
    dim_read: Seq<Range<u64>>,
    cube_offset: Seq<u64>,
    cube_dimension: Seq<u64>,
) -> ParametersView {
    ParametersView {
        dim_read,
        cube_offset,
        cube_dimension,
        io_size_max: array.io_size_max,
        io_size_merge: array.io_size_merge,
    }
}

/// Copies ranges into a list of their own.
fn copy_ranges(ranges: &[Range<u64>]) -> (copies: Vec<Range<u64>>)
    ensures
        copies@ == ranges@,
{
    let mut copies: Vec<Range<u64>> = Vec::with_capacity(ranges.len());
    let mut at: usize = 0;
    while at < ranges.len()
        invariant
            at <= ranges@.len(),
            copies@ =~= ranges@.take(at as int),
        decreases ranges@.len() - at,
    {
        copies.push(Range { start: ranges[at].start, end: ranges[at].end });
        at = at + 1;
    }
    assert(ranges@.take(at as int) =~= ranges@);
    copies
}

impl<'a, Backend> OmFileAsyncArray<'a, Backend> {
    /// Starts the read of a region, given as a range for each dimension, into a new array that
    /// the region fills.
    pub fn read<Bytes>(&self, dim_read: &[Range<u64>]) -> (plan: ReadPlan<Bytes>)
        requires
            forall|i: int|
                0 <= i < dim_read@.len() ==> (#[trigger] dim_read@[i]).start <= dim_read@[i].end,
        ensures
            plan.shape@ == region_size(dim_read@).map_values(|length: u64| length as usize),
            plan.shape@.len() == dim_read@.len(),
            forall|i: int|
                0 <= i < dim_read@.len() ==> #[trigger] plan.shape@[i] == (dim_read@[i].end
                    - dim_read@[i].start) as u64 as usize,
            plan.read@ == ReadStateView::<Bytes>::Prepare(
                read_parameters(
                    self@,
                    dim_read@,
                    Seq::new(dim_read@.len(), |i: int| 0u64),
                    region_size(dim_read@),
                ),
            ),
    {
        let mut out_dims: Vec<u64> = Vec::with_capacity(dim_read.len());
        let mut shape: Vec<usize> = Vec::with_capacity(dim_read.len());
        let mut cube_offset: Vec<u64> = Vec::with_capacity(dim_read.len());
        let mut at: usize = 0;
        while at < dim_read.len()
            invariant
                at <= dim_read@.len(),
                forall|i: int|
                    0 <= i < dim_read@.len() ==> (#[trigger] dim_read@[i]).start
                        <= dim_read@[i].end,
                out_dims@ =~= region_size(dim_read@.take(at as int)),
                shape@ =~= out_dims@.map_values(|length: u64| length as usize),
                cube_offset@ =~= Seq::new(at as nat, |i: int| 0u64),
            decreases dim_read@.len() - at,
        {
            let length: u64 = dim_read[at].end - dim_read[at].start;
            out_dims.push(length);
            shape.push(length as usize);
            cube_offset.push(0);
            at = at + 1;
        }
        assert(dim_read@.take(at as int) =~= dim_read@);
        let read = self.read_into(dim_read, cube_offset.as_slice(), out_dims.as_slice());
        ReadPlan { shape, read }
    }

    /// Whether the parameters are for as many dimensions as the array has.
    pub fn check_dimensions(&self, parameters: &ReadParameters) -> (fit: bool)
        ensures
            fit == parameters@.have_dimensions(variable::block_dimension_count(self@.reader.block)),
    {
        let count: u64 = self.variable().number_of_dimensions();
        parameters.dim_read.len() as u64 == count && parameters.cube_offset.len() as u64 == count
            && parameters.cube_dimension.len() as u64 == count
    }

    /// Starts the read of a region, given as a range for each dimension, into an array of the
    /// size `into_cube_dimension`, at the position `into_cube_offset`.
    pub fn read_into<Bytes>(
        &self,
        dim_read: &[Range<u64>],
        into_cube_offset: &[u64],
        into_cube_dimension: &[u64],
    ) -> (read: ArrayRead<Bytes>)
        ensures
            read@ == ReadStateView::<Bytes>::Prepare(
                read_parameters(self@, dim_read@, into_cube_offset@, into_cube_dimension@),
            ),
    {
        ArrayRead::new(
            ReadParameters {
                dim_read: copy_ranges(dim_read),
                cube_offset: slice_to_vec(into_cube_offset),
                cube_dimension: slice_to_vec(into_cube_dimension),
                io_size_max: self.io_size_max(),
                io_size_merge: self.io_size_merge(),
            },
        )
    }
}

} // verus!
