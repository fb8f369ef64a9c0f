//! What holds of every opening: which bytes are requested, and which files are opened where.

use std::sync::Arc;

use vstd::prelude::*;

use crate::errors::ErrorView;
use crate::format_laws;
use crate::opening::{self, OpenActionView, OpenStage, OpeningView};
use crate::reader_async::ReaderView;
use crate::variable::{self, OmOffsetSize};
use crate::variable_laws;

verus! {

/// Opening `file` through a backend that serves it: the first action, and two replies.
pub open spec fn opened<Backend>(
    backend: Arc<Backend>,
    file: Seq<u8>,
    refusal: ErrorView,
) -> OpenActionView<Backend> {
    opening::open_round(
        opening::open_round(
            opening::open_start(backend, file.len() as usize),
            file,
            refusal,
        ),
        file,
        refusal,
    )
}

/// A file that holds the metadata of its root variable anywhere, and ends in the trailer for it, is
/// opened with the whole of that metadata, from where it is.
pub proof fn law_current_file_is_opened<Backend>(
    backend: Arc<Backend>,
    before: Seq<u8>,
    root: Seq<u8>,
    between: Seq<u8>,
    reserved: Seq<u8>,
    refusal: ErrorView,
)
    requires
        variable::is_complete(root),
        reserved.len() == 5,
        before.len() + root.len() + between.len() + 24 <= usize::MAX,
    ensures
        opened(
            backend,
            before + root + between + format_laws::trailer_bytes(
                before.len() as u64,
                root.len() as u64,
                reserved,
            ),
            refusal,
        ) == OpenActionView::Opened(
            ReaderView {
                backend,
                block: root,
                offset_size: OmOffsetSize {
                    offset: before.len() as u64,
                    size: root.len() as u64,
                },
            },
        ),
{
    let location = OmOffsetSize { offset: before.len() as u64, size: root.len() as u64 };
    let trailer = format_laws::trailer_bytes(location.offset, location.size, reserved);
    let file = before + root + between + trailer;
    format_laws::law_trailer_is_read_back(
        location.offset,
        location.size,
        reserved,
        Seq::empty(),
    );
    assert(trailer + Seq::<u8>::empty() =~= trailer);
    assert(file.subrange(file.len() - 24, file.len() as int) =~= trailer);
    let start = opening::open_start(backend, file.len() as usize);
    let named = opening::open_round(start, file, refusal);
    assert(named == OpenActionView::Fetch(
        OpeningView { backend, file_size: file.len() as usize, stage: OpenStage::Root(location) },
    ));
    assert(file.subrange(before.len() as int, (before.len() + root.len()) as int) =~= root);
}

/// A file that ends in a trailer for bytes that it does not hold cannot be opened: the backend's
/// refusal is passed on, and the legacy format is not tried.
pub proof fn law_root_beyond_the_end<Backend>(
    backend: Arc<Backend>,
    before: Seq<u8>,
    location: OmOffsetSize,
    reserved: Seq<u8>,
    refusal: ErrorView,
)
    requires
        reserved.len() == 5,
        before.len() + 24 <= usize::MAX,
        location.offset + location.size > before.len() + 24,
    ensures
        opened(
            backend,
            before + format_laws::trailer_bytes(location.offset, location.size, reserved),
            refusal,
        ) == OpenActionView::<Backend>::Failed(refusal),
{
    let trailer = format_laws::trailer_bytes(location.offset, location.size, reserved);
    let file = before + trailer;
    format_laws::law_trailer_is_read_back(
        location.offset,
        location.size,
        reserved,
        Seq::empty(),
    );
    assert(trailer + Seq::<u8>::empty() =~= trailer);
    assert(file.subrange(file.len() - 24, file.len() as int) =~= trailer);
    let named = opening::open_round(
        opening::open_start(backend, file.len() as usize),
        file,
        refusal,
    );
    assert(named == OpenActionView::Fetch(
        OpeningView { backend, file_size: file.len() as usize, stage: OpenStage::Root(location) },
    ));
}

/// The last 24 bytes of the file are a trailer of the current format.
pub open spec fn ends_in_trailer(file: Seq<u8>) -> bool {
    &&& file.len() >= 24
    &&& file[file.len() - 24] == 0x4f
    &&& file[file.len() - 23] == 0x4d
    &&& file[file.len() - 22] == 3
}

/// A file that does not end in a trailer is opened if and only if it starts with a legacy header of
/// 40 bytes; the header is then all of its metadata. Of the others, those below 40 bytes are too
/// small, and the rest are no such files.
pub proof fn law_file_without_trailer<Backend>(
    backend: Arc<Backend>,
    file: Seq<u8>,
    refusal: ErrorView,
)
    requires
        file.len() <= usize::MAX,
        !ends_in_trailer(file),
    ensures
        opened(backend, file, refusal) == (if file.len() < 40 {
            OpenActionView::Failed(ErrorView::FileTooSmall)
        } else if variable_laws::is_legacy_header(file) {
            OpenActionView::Opened(
                ReaderView {
                    backend,
                    block: file.take(40),
                    offset_size: OmOffsetSize { offset: 0, size: 40 },
                },
            )
        } else {
            OpenActionView::Failed(ErrorView::NotAnOmFile)
        }),
{
    let size = file.len() as usize;
    if file.len() >= 24 {
        let end = file.subrange(file.len() - 24, file.len() as int);
        assert(end[0] == file[file.len() - 24] && end[1] == file[file.len() - 23] && end[2]
            == file[file.len() - 22]);
        format_laws::law_what_is_a_trailer(end);
    }
    let start = opening::open_start(backend, size);
    let next = opening::open_round(start, file, refusal);
    if file.len() >= 40 {
        assert(next == OpenActionView::Fetch(
            OpeningView { backend, file_size: size, stage: OpenStage::LegacyHeader },
        ));
        let header = file.take(40);
        assert(file.subrange(0, 40) =~= header);
        assert(header[0] == file[0] && header[1] == file[1] && header[2] == file[2]);
        format_laws::law_what_a_header_says(header);
        if variable_laws::is_legacy_header(file) {
            variable_laws::law_legacy_block(header);
        }
    }
}

/// Which bytes opening asks for first: the last 24 of the file. A file that has not as many is
/// refused as too small.
pub proof fn law_first_request<Backend>(backend: Arc<Backend>, file_size: usize)
    ensures
        match opening::open_start(backend, file_size) {
            OpenActionView::Fetch(waiting) => {
                &&& file_size >= 24
                &&& waiting.request().offset + 24 == file_size
                &&& waiting.request().size == 24
                &&& waiting.backend == backend
                &&& waiting.file_size == file_size
                &&& waiting.stage == OpenStage::Trailer
            },
            OpenActionView::Opened(_) => false,
            OpenActionView::Failed(error) => file_size < 24 && error == ErrorView::FileTooSmall,
        },
{
}

/// What follows the reply to the request for the trailer. If the reply is a trailer, exactly the
/// bytes that it names are asked for; else the first 40 bytes are, if there are as many.
pub proof fn law_second_request<Backend>(
    backend: Arc<Backend>,
    file_size: usize,
    location: OmOffsetSize,
    reserved: Seq<u8>,
    after: Seq<u8>,
    other: Seq<u8>,
)
    requires
        reserved.len() == 5,
        other.len() < 24 || other[0] != 0x4f || other[1] != 0x4d || other[2] != 3,
    ensures
        ({
            let waiting = OpeningView { backend, file_size, stage: OpenStage::Trailer };
            let trailer = format_laws::trailer_bytes(location.offset, location.size, reserved)
                + after;
            &&& opening::open_resume(waiting, Ok(trailer)) matches OpenActionView::Fetch(next)
                && next.request() == location && next.stage == OpenStage::Root(location)
                && next.backend == backend && next.file_size == file_size
            &&& match opening::open_resume(waiting, Ok(other)) {
                OpenActionView::Fetch(next) => {
                    &&& file_size >= 40
                    &&& next.request() == (OmOffsetSize { offset: 0, size: 40 })
                    &&& next.stage == OpenStage::LegacyHeader
                    &&& next.backend == backend
                    &&& next.file_size == file_size
                },
                OpenActionView::Opened(_) => false,
                OpenActionView::Failed(error) => file_size < 40 && error
                    == ErrorView::FileTooSmall,
            }
        }),
{
    format_laws::law_trailer_is_read_back(location.offset, location.size, reserved, after);
    format_laws::law_what_is_a_trailer(other);
}

/// What follows the reply to the request for the metadata of the root variable: complete metadata
/// opens the file, other bytes are refused.
pub proof fn law_root_reply<Backend>(
    backend: Arc<Backend>,
    file_size: usize,
    location: OmOffsetSize,
    bytes: Seq<u8>,
)
    ensures
        opening::open_resume(
            OpeningView { backend, file_size, stage: OpenStage::Root(location) },
            Ok(bytes),
        ) == (if variable::is_complete(bytes) {
            OpenActionView::Opened(
                ReaderView { backend, block: bytes, offset_size: location },
            )
        } else {
            OpenActionView::Failed(ErrorView::NotAnOmFile)
        }),
{
}

/// What follows the reply to the request for a legacy header: a legacy header of 40 bytes or more
/// opens the file, other bytes are refused.
pub proof fn law_legacy_reply<Backend>(
    backend: Arc<Backend>,
    file_size: usize,
    bytes: Seq<u8>,
)
    ensures
        opening::open_resume(
            OpeningView { backend, file_size, stage: OpenStage::LegacyHeader },
            Ok(bytes),
        ) == (if bytes.len() >= 40 && variable_laws::is_legacy_header(bytes) {
            OpenActionView::Opened(
                ReaderView {
                    backend,
                    block: bytes,
                    offset_size: OmOffsetSize { offset: 0, size: 40 },
                },
            )
        } else {
            OpenActionView::Failed(ErrorView::NotAnOmFile)
        }),
{
    format_laws::law_what_a_header_says(bytes);
    if bytes.len() >= 3 && variable_laws::is_legacy_header(bytes) {
        variable_laws::law_legacy_block(bytes);
    }
}

/// A request that fails ends the opening with its error, whatever was waited for.
pub proof fn law_failed_request_ends_the_opening<Backend>(
    waiting: OpeningView<Backend>,
    error: ErrorView,
)
    ensures
        opening::open_resume(waiting, Err(error)) == OpenActionView::<Backend>::Failed(error),
{
}

/// What the outcome of reading the trailer leads to. A location is fetched as it is; bytes that are
/// no trailer lead to the legacy format; any other error ends the opening with that error.
pub proof fn law_after_the_trailer<Backend>(
    backend: Arc<Backend>,
    file_size: usize,
    location: OmOffsetSize,
    error: ErrorView,
)
    ensures
        opening::open_after_trailer(backend, file_size, Ok(location)) matches OpenActionView::Fetch(
            next,
        ) && next.request() == location && next.backend == backend && next.file_size == file_size
            && next.stage == OpenStage::Root(location),
        match opening::open_after_trailer::<Backend>(backend, file_size, Err(error)) {
            OpenActionView::Fetch(next) => {
                &&& error == ErrorView::NotAnOmFile
                &&& file_size >= 40
                &&& next.request() == (OmOffsetSize { offset: 0, size: 40 })
                &&& next.stage == OpenStage::LegacyHeader
                &&& next.backend == backend
                &&& next.file_size == file_size
            },
            OpenActionView::Opened(_) => false,
            OpenActionView::Failed(cause) => if error == ErrorView::NotAnOmFile {
                file_size < 40 && cause == ErrorView::FileTooSmall
            } else {
                cause == error
            },
        },
{
}

} // verus!
