//! What holds of every step of a read of an array.

use std::ops::Range;

use vstd::prelude::*;

use crate::array_read::{
    self, ChunkRead, ParametersView, ReadEvent, ReadEventView, ReadParameters, ReadState,
    ReadStateView,
};
use crate::array_read_laws;
use crate::errors::{ErrorView, OmFilesError};
use crate::reader_async::ArrayView;
use crate::variable::OmOffsetSize;

verus! {

/// A region has, in each dimension, as many elements as lie between the ends of its range, however
/// many these are.
pub proof fn law_region_size(dim_read: Seq<Range<u64>>)
    requires
        forall|i: int| 0 <= i < dim_read.len() ==> (#[trigger] dim_read[i]).start <= dim_read[i].end,
    ensures
        array_read::region_size(dim_read).len() == dim_read.len(),
        forall|i: int|
            0 <= i < dim_read.len() ==> dim_read[i].start + #[trigger] array_read::region_size(
                dim_read,
            )[i] == dim_read[i].end,
{
}

/// The decoder is given the region, the place and the size of the target as the caller gave them,
/// and the request sizes of the array.
pub proof fn law_parameters_are_kept<Backend>(
    array: ArrayView<Backend>,
    dim_read: Seq<Range<u64>>,
    cube_offset: Seq<u64>,
    cube_dimension: Seq<u64>,
)
    ensures
        array_read::read_parameters(array, dim_read, cube_offset, cube_dimension) == (
        ParametersView {
            dim_read,
            cube_offset,
            cube_dimension,
            io_size_max: array.io_size_max,
            io_size_merge: array.io_size_merge,
        }),
{
}

/// Parameters are for a number of dimensions if and only if each of their lists has that length.
pub proof fn law_dimensions_of_parameters(parameters: ParametersView, count: nat)
    ensures
        parameters.have_dimensions(count) <==> parameters.dim_read.len() == count
            && parameters.cube_offset.len() == count && parameters.cube_dimension.len() == count,
{
}

/// Once the decoder is set up, it is asked for the first block; if it refuses the region, the read
/// ends with its error.
pub proof fn law_preparation<Bytes>(parameters: ParametersView, error: ErrorView)
    ensures
        array_read::read_step(
            ReadStateView::<Bytes>::Prepare(parameters),
            ReadEventView::Prepared(Ok(())),
        ) == ReadStateView::<Bytes>::NextIndex,
        array_read::read_step(
            ReadStateView::<Bytes>::Prepare(parameters),
            ReadEventView::Prepared(Err(error)),
        ) == ReadStateView::<Bytes>::Finished(Err(error)),
{
}

/// A block of the look-up table is fetched exactly where the decoder says that it is; what arrives
/// is handed to the decoder as it is. Without a block left, the read ends well, and a block that
/// cannot be fetched ends it with the error of the request.
pub proof fn law_index_block<Bytes>(block: OmOffsetSize, bytes: Bytes, error: ErrorView)
    ensures
        array_read::read_step(
            ReadStateView::<Bytes>::NextIndex,
            ReadEventView::IndexRead(Some(block)),
        ) == ReadStateView::<Bytes>::FetchIndex(block),
        array_read::read_step(
            ReadStateView::<Bytes>::NextIndex,
            ReadEventView::IndexRead(None),
        ) == ReadStateView::<Bytes>::Finished(Ok(())),
        array_read::read_step(
            ReadStateView::<Bytes>::FetchIndex(block),
            ReadEventView::IndexData(Ok(bytes)),
        ) == ReadStateView::<Bytes>::ListChunks(bytes),
        array_read::read_step(
            ReadStateView::<Bytes>::FetchIndex(block),
            ReadEventView::IndexData(Err(error)),
        ) == ReadStateView::<Bytes>::Finished(Err(error)),
{
}

/// After any run without failure, the next block that the decoder names is the one that is
/// fetched.
pub proof fn law_every_block_is_fetched_as_named<Bytes>(
    parameters: ParametersView,
    blocks: Seq<array_read_laws::Block<Bytes>>,
    next: OmOffsetSize,
    bytes: Bytes,
)
    requires
        forall|i: int|
            0 <= i < blocks.len() ==> (#[trigger] blocks[i]).data.len() == blocks[i].reads.len(),
    ensures
        ({
            let events = seq![ReadEventView::Prepared(Ok(()))] + array_read_laws::blocks_events(
                blocks,
            ) + seq![ReadEventView::IndexRead(Some(next))];
            let start = ReadStateView::<Bytes>::Prepare(parameters);
            &&& array_read_laws::run(start, events) == ReadStateView::<Bytes>::FetchIndex(next)
            &&& array_read_laws::run(start, events.push(ReadEventView::IndexData(Ok(bytes))))
                == ReadStateView::<Bytes>::ListChunks(bytes)
        }),
{
    let start = ReadStateView::<Bytes>::Prepare(parameters);
    let before = seq![ReadEventView::Prepared(Ok(()))] + array_read_laws::blocks_events(blocks);
    let named = ReadEventView::<Bytes>::IndexRead(Some(next));
    let fetched = ReadEventView::<Bytes>::IndexData(Ok(bytes));
    array_read_laws::lemma_run_to_next_block(parameters, blocks);
    assert((before + seq![named]).drop_last() =~= before);
    assert((before + seq![named]).push(fetched).drop_last() =~= before + seq![named]);
}

/// The chunks that the decoder lists are all fetched, in the order of the list. Those that have
/// arrived are kept as they came; once all are there, the target is needed.
pub proof fn law_chunks_are_fetched_in_turn<Bytes>(
    index_data: Bytes,
    reads: Seq<ChunkRead>,
    data: Seq<Bytes>,
    error: ErrorView,
)
    requires
        data.len() <= reads.len(),
    ensures
        array_read_laws::run(
            ReadStateView::ListChunks(index_data),
            seq![ReadEventView::ChunkList(Ok(reads))] + array_read_laws::arrivals(data),
        ) == (if data.len() < reads.len() {
            ReadStateView::FetchChunks { reads, data }
        } else {
            ReadStateView::BorrowOutput { reads, data }
        }),
        array_read::read_step(
            ReadStateView::ListChunks(index_data),
            ReadEventView::ChunkList(Err(error)),
        ) == ReadStateView::<Bytes>::Finished(Err(error)),
{
    array_read_laws::lemma_list_and_arrivals(index_data, reads, data);
}

/// A chunk that arrives is added to those before it, and a chunk that cannot be fetched ends the
/// read with a task error that says why.
pub proof fn law_arrival<Bytes>(
    reads: Seq<ChunkRead>,
    data: Seq<Bytes>,
    bytes: Bytes,
    error: ErrorView,
)
    requires
        data.len() < reads.len(),
    ensures
        array_read::read_step(
            ReadStateView::FetchChunks { reads, data },
            ReadEventView::ChunkData(Ok(bytes)),
        ) == (if data.len() + 1 < reads.len() {
            ReadStateView::FetchChunks { reads, data: data.push(bytes) }
        } else {
            ReadStateView::BorrowOutput { reads, data: data.push(bytes) }
        }),
        array_read::read_step(
            ReadStateView::FetchChunks { reads, data },
            ReadEventView::ChunkData(Err(error)),
        ) == ReadStateView::<Bytes>::Finished(Err(ErrorView::TaskError(error.message()))),
{
}

/// A target that is not one block of memory ends the read. Else decoding starts with the first
/// chunk; without chunks the next block follows.
pub proof fn law_target<Bytes>(reads: Seq<ChunkRead>, data: Seq<Bytes>)
    ensures
        array_read::read_step(
            ReadStateView::BorrowOutput { reads, data },
            ReadEventView::Output { contiguous: false },
        ) == ReadStateView::<Bytes>::Finished(Err(ErrorView::ArrayNotContiguous)),
        array_read::read_step(
            ReadStateView::BorrowOutput { reads, data },
            ReadEventView::Output { contiguous: true },
        ) == (if reads.len() > 0 {
            ReadStateView::Decode { reads, data, decoded: 0, failure: None }
        } else {
            ReadStateView::NextIndex
        }),
{
}

/// After a chunk the next one of the list is decoded, whether or not it failed; the first failure
/// is kept. After the last one, that failure ends the read, or the next block follows.
pub proof fn law_decoding<Bytes>(
    reads: Seq<ChunkRead>,
    data: Seq<Bytes>,
    decoded: int,
    failure: Option<ErrorView>,
    result: Result<(), ErrorView>,
)
    requires
        0 <= decoded < reads.len(),
    ensures
        ({
            let next = array_read::read_step(
                ReadStateView::Decode { reads, data, decoded, failure },
                ReadEventView::Decoded(result),
            );
            let kept = if failure is None && result is Err {
                Some(result->Err_0)
            } else {
                failure
            };
            if decoded + 1 < reads.len() {
                next == ReadStateView::Decode { reads, data, decoded: decoded + 1, failure: kept }
            } else if kept is Some {
                next == ReadStateView::<Bytes>::Finished(Err(kept->0))
            } else {
                next == ReadStateView::<Bytes>::NextIndex
            }
        }),
{
}

/// The state waits for the event.
pub open spec fn awaits<Bytes>(
    state: ReadStateView<Bytes>,
    event: ReadEventView<Bytes>,
) -> bool {
    ||| state is Prepare && event is Prepared
    ||| state is NextIndex && event is IndexRead
    ||| state is FetchIndex && event is IndexData
    ||| state is ListChunks && event is ChunkList
    ||| state is FetchChunks && event is ChunkData
    ||| state is BorrowOutput && event is Output
    ||| state is Decode && event is Decoded
}

/// An event that the state does not wait for changes nothing.
pub proof fn law_other_events_change_nothing<Bytes>(
    state: ReadStateView<Bytes>,
    event: ReadEventView<Bytes>,
)
    requires
        !awaits(state, event),
    ensures
        array_read::read_step(state, event) == state,
{
}

/// What an event stands for keeps its kind and all that it holds.
pub proof fn law_events_are_kept<Bytes>(
    block: Option<OmOffsetSize>,
    bytes: Bytes,
    reads: Vec<ChunkRead>,
    error: OmFilesError,
    contiguous: bool,
)
    ensures
        ReadEvent::<Bytes>::Prepared(Ok(()))@ == ReadEventView::<Bytes>::Prepared(Ok(())),
        ReadEvent::<Bytes>::Prepared(Err(error))@ == ReadEventView::<Bytes>::Prepared(Err(error@)),
        ReadEvent::<Bytes>::IndexRead(block)@ == ReadEventView::<Bytes>::IndexRead(block),
        ReadEvent::IndexData(Ok(bytes))@ == ReadEventView::IndexData(Ok(bytes)),
        ReadEvent::<Bytes>::IndexData(Err(error))@ == ReadEventView::<Bytes>::IndexData(
            Err(error@),
        ),
        ReadEvent::<Bytes>::ChunkList(Ok(reads))@ == ReadEventView::<Bytes>::ChunkList(Ok(reads@)),
        ReadEvent::<Bytes>::ChunkList(Err(error))@ == ReadEventView::<Bytes>::ChunkList(
            Err(error@),
        ),
        ReadEvent::ChunkData(Ok(bytes))@ == ReadEventView::ChunkData(Ok(bytes)),
        ReadEvent::<Bytes>::ChunkData(Err(error))@ == ReadEventView::<Bytes>::ChunkData(
            Err(error@),
        ),
        (ReadEvent::<Bytes>::Output { contiguous })@ == (ReadEventView::<Bytes>::Output {
            contiguous,
        }),
        ReadEvent::<Bytes>::Decoded(Ok(()))@ == ReadEventView::<Bytes>::Decoded(Ok(())),
        ReadEvent::<Bytes>::Decoded(Err(error))@ == ReadEventView::<Bytes>::Decoded(Err(error@)),
{
}

/// What a state stands for keeps its kind and all that it holds.
pub proof fn law_states_are_kept<Bytes>(
    parameters: ReadParameters,
    block: OmOffsetSize,
    bytes: Bytes,
    reads: Vec<ChunkRead>,
    data: Vec<Bytes>,
    decoded: usize,
    error: OmFilesError,
)
    ensures
        parameters@ == (ParametersView {
            dim_read: parameters.dim_read@,
            cube_offset: parameters.cube_offset@,
            cube_dimension: parameters.cube_dimension@,
            io_size_max: parameters.io_size_max,
            io_size_merge: parameters.io_size_merge,
        }),
        ReadState::<Bytes>::Prepare(parameters)@ == ReadStateView::<Bytes>::Prepare(parameters@),
        ReadState::<Bytes>::NextIndex@ == ReadStateView::<Bytes>::NextIndex,
        ReadState::<Bytes>::FetchIndex(block)@ == ReadStateView::<Bytes>::FetchIndex(block),
        ReadState::ListChunks(bytes)@ == ReadStateView::ListChunks(bytes),
        (ReadState::FetchChunks { reads, data })@ == (ReadStateView::FetchChunks {
            reads: reads@,
            data: data@,
        }),
        (ReadState::BorrowOutput { reads, data })@ == (ReadStateView::BorrowOutput {
            reads: reads@,
            data: data@,
        }),
        (ReadState::Decode { reads, data, decoded, failure: None })@ == (ReadStateView::Decode {
            reads: reads@,
            data: data@,
            decoded: decoded as int,
            failure: None,
        }),
        (ReadState::Decode { reads, data, decoded, failure: Some(error) })@ == (
        ReadStateView::Decode {
            reads: reads@,
            data: data@,
            decoded: decoded as int,
            failure: Some(error@),
        }),
        ReadState::<Bytes>::Finished(Ok(()))@ == ReadStateView::<Bytes>::Finished(Ok(())),
        ReadState::<Bytes>::Finished(Err(error))@ == ReadStateView::<Bytes>::Finished(Err(error@)),
{
}

} // verus!
