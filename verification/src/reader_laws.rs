//! What holds of every reader and of every error: nothing is lost on the way to it.

use std::sync::Arc;

use vstd::prelude::*;

use crate::errors::{self, ErrorView, OmFilesError};
use crate::opening::{OpenAction, OpenActionView, Opening};
use crate::reader_async::{self, ArrayView, OmFileReaderAsync, ReaderView};
use crate::variable::{self, OmOffsetSize};

verus! {

/// A reader is made from a reply if and only if the reply is complete metadata; it then holds the
/// whole reply, the backend and the location that was asked for. A failed request is passed on as
/// it is, and incomplete metadata is refused.
pub proof fn law_reader_keeps_its_reply<Backend>(
    backend: Arc<Backend>,
    offset_size: OmOffsetSize,
    bytes: Seq<u8>,
    error: ErrorView,
)
    ensures
        reader_async::reader_at(
            backend,
            offset_size,
            reader_async::fetched_block(Ok(bytes)),
        ) == (if variable::is_complete(bytes) {
            Ok::<ReaderView<Backend>, ErrorView>(ReaderView { backend, block: bytes, offset_size })
        } else {
            Err(ErrorView::NotAnOmFile)
        }),
        reader_async::reader_at(
            backend,
            offset_size,
            reader_async::fetched_block(Err(error)),
        ) == Err::<ReaderView<Backend>, ErrorView>(error),
        reader_async::fetched_block(Ok(bytes)) == (if variable::is_complete(bytes) {
            Ok::<Seq<u8>, ErrorView>(bytes)
        } else {
            Err(ErrorView::NotAnOmFile)
        }),
        reader_async::fetched_block(Err(error)) == Err::<Seq<u8>, ErrorView>(error),
{
}

/// An array reader keeps the reader and the request sizes that it is made from, and starts with 16
/// permits. By default requests hold 65536 bytes at most, and are merged below 512 bytes.
pub proof fn law_array_keeps_its_sizes<Backend>(
    reader: ReaderView<Backend>,
    io_size_max: u64,
    io_size_merge: u64,
)
    ensures
        ({
            let array = reader_async::default_array(reader, io_size_max, io_size_merge);
            &&& array.reader == reader
            &&& array.io_size_max == io_size_max
            &&& array.io_size_merge == io_size_merge
            &&& array.max_concurrency == 16
        }),
        reader_async::DEFAULT_IO_SIZE_MAX == 65536,
        reader_async::DEFAULT_IO_SIZE_MERGE == 512,
        reader_async::DEFAULT_MAX_CONCURRENCY == 16,
{
}

/// Setting the number of permits sets just that, to whatever number is asked for.
pub proof fn law_permits_are_set<Backend>(array: ArrayView<Backend>, permits: nat)
    ensures
        ({
            let set = reader_async::with_permits(array, permits);
            &&& set.max_concurrency == permits
            &&& set.reader == array.reader
            &&& set.io_size_max == array.io_size_max
            &&& set.io_size_merge == array.io_size_merge
        }),
{
}

/// Replies, readers and errors are taken by their whole views.
pub proof fn law_replies_are_kept<Backend, T>(
    bytes: Vec<u8>,
    error: OmFilesError,
    reader: OmFileReaderAsync<Backend>,
    value: T,
)
    ensures
        reader_async::reply_view(Ok(bytes)) == Ok::<Seq<u8>, ErrorView>(bytes@),
        reader_async::reply_view(Err(error)) == Err::<Seq<u8>, ErrorView>(error@),
        reader_async::reader_outcome(Ok(reader)) == Ok::<ReaderView<Backend>, ErrorView>(reader@),
        reader_async::reader_outcome(Err::<OmFileReaderAsync<Backend>, OmFilesError>(error))
            == Err::<ReaderView<Backend>, ErrorView>(error@),
        errors::result_view(Ok::<T, OmFilesError>(value)) == Ok::<T, ErrorView>(value),
        errors::result_view(Err::<T, OmFilesError>(error)) == Err::<T, ErrorView>(error@),
{
}

/// What an action stands for keeps its kind and all that it holds.
pub proof fn law_actions_are_kept<Backend>(
    waiting: Opening<Backend>,
    reader: OmFileReaderAsync<Backend>,
    error: OmFilesError,
)
    ensures
        OpenAction::Fetch(waiting)@ == OpenActionView::Fetch(waiting@),
        OpenAction::Opened(reader)@ == OpenActionView::Opened(reader@),
        OpenAction::<Backend>::Failed(error)@ == OpenActionView::<Backend>::Failed(error@),
{
}

/// An error is known by its kind and its text: two errors with the same view are of one kind and
/// have the same text, and the text of the view is the whole text.
pub proof fn law_errors_are_kept(error: OmFilesError)
    ensures
        error@ is FileTooSmall <==> error is FileTooSmall,
        error@ is NotAnOmFile <==> error is NotAnOmFile,
        error@ is InvalidDataType <==> error is InvalidDataType,
        error@ is ArrayNotContiguous <==> error is ArrayNotContiguous,
        error matches OmFilesError::TaskError(text) ==> error@ == ErrorView::TaskError(text@),
        error matches OmFilesError::GenericError(text) ==> error@ == ErrorView::GenericError(text@),
{
}

/// The text of an error with a cause ends in the whole cause. Of an error without a kind of its own
/// it is the cause alone.
pub proof fn law_message_holds_the_cause(cause: Seq<char>)
    ensures
        ErrorView::GenericError(cause).message() == cause,
        ErrorView::TaskError(cause).message() == "Task error: "@ + cause,
        ErrorView::FileTooSmall.message() == "File too small"@,
        ErrorView::NotAnOmFile.message() == "Not an OM file"@,
        ErrorView::InvalidDataType.message() == "Invalid data type"@,
        ErrorView::ArrayNotContiguous.message() == "Array not contiguous"@,
{
}

} // verus!
