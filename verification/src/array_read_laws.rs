//! What holds of every read of an array.

use vstd::prelude::*;

use crate::array_read::{self, ChunkRead, ParametersView, ReadEventView, ReadStateView};
use crate::errors::ErrorView;
use crate::variable::OmOffsetSize;

verus! {

/// The state that `state` comes to on `events`, one after the other.
pub open spec fn run<Bytes>(
    state: ReadStateView<Bytes>,
    events: Seq<ReadEventView<Bytes>>,
) -> ReadStateView<Bytes>
    decreases events.len(),
{
    if events.len() == 0 {
        state
    } else {
        array_read::read_step(run(state, events.drop_last()), events.last())
    }
}

/// The first error among the results, if there is one.
pub open spec fn first_error(results: Seq<Result<(), ErrorView>>) -> Option<ErrorView>
    decreases results.len(),
{
    if results.len() == 0 {
        None
    } else {
        match results[0] {
            Ok(_) => first_error(results.drop_first()),
            Err(error) => Some(error),
        }
    }
}

/// The chunks arrive, one after the other.
pub open spec fn arrivals<Bytes>(data: Seq<Bytes>) -> Seq<ReadEventView<Bytes>> {
    data.map_values(|bytes: Bytes| ReadEventView::ChunkData(Ok(bytes)))
}

/// The chunks are decoded, one after the other.
pub open spec fn decodings<Bytes>(results: Seq<Result<(), ErrorView>>) -> Seq<
    ReadEventView<Bytes>,
> {
    results.map_values(|result: Result<(), ErrorView>| ReadEventView::Decoded(result))
}

proof fn lemma_run_concat<Bytes>(
    state: ReadStateView<Bytes>,
    first: Seq<ReadEventView<Bytes>>,
    second: Seq<ReadEventView<Bytes>>,
)
    ensures
        run(state, first + second) == run(run(state, first), second),
    decreases second.len(),
{
    if second.len() == 0 {
        assert(first + second =~= first);
    } else {
        lemma_run_concat(state, first, second.drop_last());
        assert((first + second).drop_last() =~= first + second.drop_last());
        assert((first + second).last() == second.last());
    }
}

proof fn lemma_run_push<Bytes>(
    state: ReadStateView<Bytes>,
    events: Seq<ReadEventView<Bytes>>,
    event: ReadEventView<Bytes>,
)
    ensures
        run(state, events.push(event)) == array_read::read_step(run(state, events), event),
{
    assert(events.push(event).drop_last() =~= events);
}

proof fn lemma_first_error_push(results: Seq<Result<(), ErrorView>>, last: Result<(), ErrorView>)
    ensures
        first_error(results.push(last)) == (match (first_error(results), last) {
            (None, Err(error)) => Some(error),
            _ => first_error(results),
        }),
    decreases results.len(),
{
    if results.len() == 0 {
        let one = results.push(last);
        assert(one[0] == last);
        assert(first_error(one.drop_first()) is None);
    } else {
        assert(results.push(last)[0] == results[0]);
        assert(results.push(last).drop_first() =~= results.drop_first().push(last));
        lemma_first_error_push(results.drop_first(), last);
    }
}

/// As chunks arrive, they are kept in the order of the list.
proof fn lemma_arrivals<Bytes>(reads: Seq<ChunkRead>, data: Seq<Bytes>)
    requires
        data.len() <= reads.len(),
    ensures
        run(array_read::with_data(reads, Seq::empty()), arrivals(data))
            == array_read::with_data(reads, data),
    decreases data.len(),
{
    let start = array_read::with_data(reads, Seq::<Bytes>::empty());
    if data.len() == 0 {
        assert(data =~= Seq::empty());
        assert(arrivals(data) =~= Seq::empty());
    } else {
        let before = data.drop_last();
        lemma_arrivals(reads, before);
        assert(arrivals(data) =~= arrivals(before).push(
            ReadEventView::ChunkData(Ok(data.last())),
        ));
        lemma_run_push(start, arrivals(before), ReadEventView::ChunkData(Ok(data.last())));
        assert(before.push(data.last()) =~= data);
    }
}

/// As chunks are decoded, the first failure is kept.
proof fn lemma_decodings<Bytes>(
    reads: Seq<ChunkRead>,
    data: Seq<Bytes>,
    results: Seq<Result<(), ErrorView>>,
)
    requires
        results.len() <= reads.len(),
    ensures
        run(array_read::with_decoded(reads, data, 0, None), decodings(results))
            == array_read::with_decoded(
            reads,
            data,
            results.len() as int,
            first_error(results),
        ),
    decreases results.len(),
{
    let start = array_read::with_decoded(reads, data, 0, None);
    if results.len() == 0 {
        assert(decodings::<Bytes>(results) =~= Seq::empty());
    } else {
        let before = results.drop_last();
        lemma_decodings(reads, data, before);
        let last = ReadEventView::<Bytes>::Decoded(results.last());
        assert(decodings::<Bytes>(results) =~= decodings::<Bytes>(before).push(last));
        lemma_run_push(start, decodings(before), last);
        lemma_first_error_push(before, results.last());
        assert(before.push(results.last()) =~= results);
    }
}

/// Once the chunks of a block are listed and fetched, each is decoded in its turn with its own
/// data. All are decoded, failures or not; then the first failure ends the read, and without one
/// the next block follows.
pub proof fn law_chunks_are_decoded_in_turn<Bytes>(
    index_data: Bytes,
    reads: Seq<ChunkRead>,
    data: Seq<Bytes>,
    results: Seq<Result<(), ErrorView>>,
)
    requires
        data.len() == reads.len(),
        results.len() <= reads.len(),
    ensures
        run(
            ReadStateView::ListChunks(index_data),
            seq![ReadEventView::ChunkList(Ok(reads))] + arrivals(data) + seq![
                ReadEventView::Output { contiguous: true },
            ] + decodings(results),
        ) == (if results.len() < reads.len() {
            ReadStateView::Decode {
                reads,
                data,
                decoded: results.len() as int,
                failure: first_error(results),
            }
        } else {
            match first_error(results) {
                Some(error) => ReadStateView::Finished(Err(error)),
                None => ReadStateView::NextIndex,
            }
        }),
{
    let state = ReadStateView::ListChunks(index_data);
    let listed = seq![ReadEventView::<Bytes>::ChunkList(Ok(reads))];
    let output = seq![ReadEventView::<Bytes>::Output { contiguous: true }];
    lemma_run_concat(state, listed + arrivals(data) + output, decodings(results));
    lemma_run_concat(state, listed + arrivals(data), output);
    lemma_run_concat(state, listed, arrivals(data));
    assert(listed =~= Seq::empty().push(ReadEventView::ChunkList(Ok(reads))));
    lemma_run_push(state, Seq::empty(), ReadEventView::ChunkList(Ok(reads)));
    lemma_arrivals(reads, data);
    let fetched = run(state, listed + arrivals(data));
    assert(output =~= Seq::empty().push(ReadEventView::Output { contiguous: true }));
    lemma_run_push(fetched, Seq::empty(), ReadEventView::Output { contiguous: true });
    lemma_decodings(reads, data, results);
}

/// The first chunk of the list that cannot be fetched ends the read, with an error that says why.
pub proof fn law_first_failed_fetch_ends_the_read<Bytes>(
    index_data: Bytes,
    reads: Seq<ChunkRead>,
    data: Seq<Bytes>,
    error: ErrorView,
)
    requires
        data.len() < reads.len(),
    ensures
        run(
            ReadStateView::ListChunks(index_data),
            seq![ReadEventView::ChunkList(Ok(reads))] + arrivals(data) + seq![
                ReadEventView::ChunkData(Err(error)),
            ],
        ) == ReadStateView::<Bytes>::Finished(Err(ErrorView::TaskError(error.message()))),
{
    let state = ReadStateView::ListChunks(index_data);
    let listed = seq![ReadEventView::<Bytes>::ChunkList(Ok(reads))];
    let failed = ReadEventView::<Bytes>::ChunkData(Err(error));
    lemma_run_concat(state, listed, arrivals(data));
    assert(listed =~= Seq::empty().push(ReadEventView::ChunkList(Ok(reads))));
    lemma_run_push(state, Seq::empty(), ReadEventView::ChunkList(Ok(reads)));
    lemma_arrivals(reads, data);
    assert(listed + arrivals(data) + seq![failed] =~= (listed + arrivals(data)).push(failed));
    lemma_run_push(state, listed + arrivals(data), failed);
}

/// A read that has ended stays as it ended.
pub proof fn law_finished_is_final<Bytes>(
    result: Result<(), ErrorView>,
    events: Seq<ReadEventView<Bytes>>,
)
    ensures
        run(ReadStateView::<Bytes>::Finished(result), events) == ReadStateView::<Bytes>::Finished(
            result,
        ),
    decreases events.len(),
{
    if events.len() > 0 {
        law_finished_is_final(result, events.drop_last());
    }
}

/// A read ends well only when the decoder has no block left.
pub proof fn law_success_comes_last<Bytes>(
    state: ReadStateView<Bytes>,
    event: ReadEventView<Bytes>,
)
    requires
        array_read::read_step(state, event) == ReadStateView::<Bytes>::Finished(Ok(())),
    ensures
        state == ReadStateView::<Bytes>::Finished(Ok(())) || (state
            == ReadStateView::<Bytes>::NextIndex && event == ReadEventView::<Bytes>::IndexRead(
            None,
        )),
{
}

/// A block of the look-up table, with the chunks that it lists and their data.
pub struct Block<Bytes> {
    pub index: OmOffsetSize,
    pub index_data: Bytes,
    pub reads: Seq<ChunkRead>,
    pub data: Seq<Bytes>,
}

/// What happens when a block is read without failure.
pub open spec fn block_events<Bytes>(block: Block<Bytes>) -> Seq<ReadEventView<Bytes>> {
    seq![
        ReadEventView::IndexRead(Some(block.index)),
        ReadEventView::IndexData(Ok(block.index_data)),
    ] + (seq![ReadEventView::ChunkList(Ok(block.reads))] + arrivals(block.data) + seq![
        ReadEventView::Output { contiguous: true },
    ] + decodings(Seq::new(block.reads.len(), |i: int| Ok::<(), ErrorView>(()))))
}

/// What happens when blocks are read without failure.
pub open spec fn blocks_events<Bytes>(blocks: Seq<Block<Bytes>>) -> Seq<ReadEventView<Bytes>>
    decreases blocks.len(),
{
    if blocks.len() == 0 {
        Seq::empty()
    } else {
        blocks_events(blocks.drop_last()) + block_events(blocks.last())
    }
}

proof fn lemma_no_error(n: nat)
    ensures
        first_error(Seq::new(n, |i: int| Ok::<(), ErrorView>(()))) is None,
    decreases n,
{
    if n > 0 {
        let results = Seq::new(n, |i: int| Ok::<(), ErrorView>(()));
        assert(results.drop_first() =~= Seq::new(
            (n - 1) as nat,
            |i: int| Ok::<(), ErrorView>(()),
        ));
        lemma_no_error((n - 1) as nat);
    }
}

proof fn lemma_block<Bytes>(block: Block<Bytes>)
    requires
        block.data.len() == block.reads.len(),
    ensures
        run(ReadStateView::NextIndex, block_events(block)) == ReadStateView::<Bytes>::NextIndex,
{
    let state = ReadStateView::<Bytes>::NextIndex;
    let named = ReadEventView::<Bytes>::IndexRead(Some(block.index));
    let fetched = ReadEventView::<Bytes>::IndexData(Ok(block.index_data));
    let results = Seq::new(block.reads.len(), |i: int| Ok::<(), ErrorView>(()));
    let rest = seq![ReadEventView::ChunkList(Ok(block.reads))] + arrivals(block.data) + seq![
        ReadEventView::Output { contiguous: true },
    ] + decodings(results);
    lemma_run_concat(state, seq![named, fetched], rest);
    assert(seq![named, fetched] =~= Seq::empty().push(named).push(fetched));
    lemma_run_push(state, Seq::empty().push(named), fetched);
    lemma_run_push(state, Seq::empty(), named);
    lemma_no_error(block.reads.len());
    law_chunks_are_decoded_in_turn(block.index_data, block.reads, block.data, results);
}

proof fn lemma_blocks<Bytes>(blocks: Seq<Block<Bytes>>)
    requires
        forall|i: int|
            0 <= i < blocks.len() ==> (#[trigger] blocks[i]).data.len() == blocks[i].reads.len(),
    ensures
        run(ReadStateView::NextIndex, blocks_events(blocks)) == ReadStateView::<Bytes>::NextIndex,
    decreases blocks.len(),
{
    if blocks.len() > 0 {
        lemma_blocks(blocks.drop_last());
        lemma_block(blocks.last());
        lemma_run_concat(
            ReadStateView::NextIndex,
            blocks_events(blocks.drop_last()),
            block_events(blocks.last()),
        );
    }
}

/// Without failures a read goes through all blocks and then asks for the next one.
pub(crate) proof fn lemma_run_to_next_block<Bytes>(
    parameters: ParametersView,
    blocks: Seq<Block<Bytes>>,
)
    requires
        forall|i: int|
            0 <= i < blocks.len() ==> (#[trigger] blocks[i]).data.len() == blocks[i].reads.len(),
    ensures
        run(
            ReadStateView::Prepare(parameters),
            seq![ReadEventView::Prepared(Ok(()))] + blocks_events(blocks),
        ) == ReadStateView::<Bytes>::NextIndex,
{
    let state = ReadStateView::<Bytes>::Prepare(parameters);
    let prepared = ReadEventView::<Bytes>::Prepared(Ok(()));
    lemma_run_concat(state, seq![prepared], blocks_events(blocks));
    assert(seq![prepared] =~= Seq::empty().push(prepared));
    lemma_run_push(state, Seq::empty(), prepared);
    lemma_blocks(blocks);
}

/// Once chunks are listed, those that arrive are kept in the order of the list.
pub(crate) proof fn lemma_list_and_arrivals<Bytes>(
    index_data: Bytes,
    reads: Seq<ChunkRead>,
    data: Seq<Bytes>,
)
    requires
        data.len() <= reads.len(),
    ensures
        run(
            ReadStateView::ListChunks(index_data),
            seq![ReadEventView::ChunkList(Ok(reads))] + arrivals(data),
        ) == array_read::with_data(reads, data),
{
    let state = ReadStateView::ListChunks(index_data);
    let listed = seq![ReadEventView::<Bytes>::ChunkList(Ok(reads))];
    lemma_run_concat(state, listed, arrivals(data));
    assert(listed =~= Seq::empty().push(ReadEventView::ChunkList(Ok(reads))));
    lemma_run_push(state, Seq::empty(), ReadEventView::ChunkList(Ok(reads)));
    lemma_arrivals(reads, data);
}

/// Without failures a read goes through all blocks and ends well.
pub proof fn law_read_without_failure_succeeds<Bytes>(
    parameters: ParametersView,
    blocks: Seq<Block<Bytes>>,
)
    requires
        forall|i: int|
            0 <= i < blocks.len() ==> (#[trigger] blocks[i]).data.len() == blocks[i].reads.len(),
    ensures
        run(
            ReadStateView::Prepare(parameters),
            seq![ReadEventView::Prepared(Ok(()))] + blocks_events(blocks) + seq![
                ReadEventView::IndexRead(None),
            ],
        ) == ReadStateView::<Bytes>::Finished(Ok(())),
{
    let state = ReadStateView::<Bytes>::Prepare(parameters);
    let prepared = ReadEventView::<Bytes>::Prepared(Ok(()));
    let exhausted = ReadEventView::<Bytes>::IndexRead(None);
    let events = seq![prepared] + blocks_events(blocks);
    assert(events + seq![exhausted] =~= events.push(exhausted));
    lemma_run_push(state, events, exhausted);
    lemma_run_to_next_block(parameters, blocks);
}

} // verus!
