//! Opening a file: which bytes are asked for, and what the replies say.
//!
//! Opening starts with [`OmFileReaderAsync::new`]. As long as it returns [`OpenAction::Fetch`],
//! the caller fetches the bytes of [`Opening::request`] and hands the reply to
//! [`Opening::resume`].

use std::sync::Arc;

use vstd::prelude::*;

use crate::errors::{ErrorView, OmFilesError};
use crate::file_format::{self, header_type, process_trailer, HeaderType, HEADER_SIZE, TRAILER_SIZE};
use crate::reader_async::{self, create_variable_from_offset, OmFileReaderAsync, ReaderView};
use crate::variable::{self, OmOffsetSize};

verus! {

/// What opening a file waits for.
#[derive(Debug, Clone, Copy, PartialEq, Eq, Structural)]
pub enum OpenStage {
    /// The trailer of a file of the current format.
    Trailer,
    /// The metadata of the root variable, which is where the trailer said.
    Root(OmOffsetSize),
    /// The header of a legacy file.
    LegacyHeader,
}

/// An opening that waits for the reply to a request.
#[derive(Debug)]
pub struct Opening<Backend> {
    backend: Arc<Backend>,
    file_size: usize,
    stage: OpenStage,
}

/// What opening a file comes to next.
#[derive(Debug)]
pub enum OpenAction<Backend> {
    /// Bytes have to be fetched before the opening can go on.
    Fetch(Opening<Backend>),
    /// The file is open.
    Opened(OmFileReaderAsync<Backend>),
    /// The file cannot be opened.
    Failed(OmFilesError),
}

/// What an [`Opening`] stands for.
pub struct OpeningView<Backend> {
    pub backend: Arc<Backend>,
    pub file_size: usize,
    pub stage: OpenStage,
}

/// What an [`OpenAction`] stands for.
pub enum OpenActionView<Backend> {
    Fetch(OpeningView<Backend>),
    Opened(ReaderView<Backend>),
    Failed(ErrorView),
}

impl<Backend> View for Opening<Backend> {
    type V = OpeningView<Backend>;

    closed spec fn view(&self) -> OpeningView<Backend> {
        OpeningView { backend: self.backend, file_size: self.file_size, stage: self.stage }
    }
}

impl<Backend> View for OpenAction<Backend> {
    type V = OpenActionView<Backend>;

    open spec fn view(&self) -> OpenActionView<Backend> {
        match self {
            OpenAction::Fetch(opening) => OpenActionView::Fetch(opening@),
            OpenAction::Opened(reader) => OpenActionView::Opened(reader@),
            OpenAction::Failed(error) => OpenActionView::Failed(error@),
        }
    }
}

impl<Backend> OpeningView<Backend> {
    /// The bytes that the stage needs lie in a file of this size.
    pub open spec fn fits(self) -> bool {
        match self.stage {
            OpenStage::Trailer => self.file_size >= TRAILER_SIZE,
            OpenStage::Root(_) => true,
            OpenStage::LegacyHeader => self.file_size >= HEADER_SIZE,
        }
    }

    /// The bytes that are waited for.
    pub open spec fn request(self) -> OmOffsetSize {
        match self.stage {
            OpenStage::Trailer => OmOffsetSize {
                offset: (self.file_size - TRAILER_SIZE) as u64,
                size: TRAILER_SIZE as u64,
            },
            OpenStage::Root(offset_size) => offset_size,
            OpenStage::LegacyHeader => OmOffsetSize { offset: 0, size: HEADER_SIZE as u64 },
        }
    }
}

/// The attempt at the legacy format: possible if the file is large enough for a header.
pub open spec fn try_legacy<Backend>(backend: Arc<Backend>, file_size: usize) -> OpenActionView<
    Backend,
> {
    if file_size < HEADER_SIZE {
        OpenActionView::Failed(ErrorView::FileTooSmall)
    } else {
        OpenActionView::Fetch(OpeningView { backend, file_size, stage: OpenStage::LegacyHeader })
    }
}

/// The first action: the current format comes first, if the file is large enough for a trailer.
pub open spec fn open_start<Backend>(backend: Arc<Backend>, file_size: usize) -> OpenActionView<
    Backend,
> {
    if file_size >= TRAILER_SIZE {
        OpenActionView::Fetch(OpeningView { backend, file_size, stage: OpenStage::Trailer })
    } else {
        try_legacy(backend, file_size)
    }
}

/// The action once the trailer is read: only where there is no trailer is the legacy format tried.
pub open spec fn open_after_trailer<Backend>(
    backend: Arc<Backend>,
    file_size: usize,
    root: Result<OmOffsetSize, ErrorView>,
) -> OpenActionView<Backend> {
    match root {
        Ok(offset_size) => OpenActionView::Fetch(
            OpeningView { backend, file_size, stage: OpenStage::Root(offset_size) },
        ),
        Err(ErrorView::NotAnOmFile) => try_legacy(backend, file_size),
        Err(error) => OpenActionView::Failed(error),
    }
}

/// The action that a reader, or the error in its place, leads to.
pub open spec fn open_settled<Backend>(
    reader: Result<ReaderView<Backend>, ErrorView>,
) -> OpenActionView<Backend> {
    match reader {
        Ok(reader) => OpenActionView::Opened(reader),
        Err(error) => OpenActionView::Failed(error),
    }
}

/// The action that follows a reply.
pub open spec fn open_resume<Backend>(
    opening: OpeningView<Backend>,
    reply: Result<Seq<u8>, ErrorView>,
) -> OpenActionView<Backend> {
    match reply {
        Err(error) => OpenActionView::Failed(error),
        Ok(bytes) => match opening.stage {
            OpenStage::Trailer => open_after_trailer(
                opening.backend,
                opening.file_size,
                match file_format::spec_trailer(bytes) {
                    Some(offset_size) => Ok(offset_size),
                    None => Err(ErrorView::NotAnOmFile),
                },
            ),
            OpenStage::Root(offset_size) => open_settled(
                reader_async::reader_at(
                    opening.backend,
                    offset_size,
                    reader_async::complete_block(bytes),
                ),
            ),
            OpenStage::LegacyHeader => if file_format::spec_header_type(bytes) is Legacy {
                open_settled(
                    reader_async::reader_at(
                        opening.backend,
                        opening.request(),
                        reader_async::complete_block(bytes),
                    ),
                )
            } else {
                OpenActionView::Failed(ErrorView::NotAnOmFile)
            },
        },
    }
}

impl<Backend> OmFileReaderAsync<Backend> {
    /// Starts to open a file of `file_size` bytes.
    ///
    /// The trailer of the current format is tried first, then the legacy format. Opening fails
    /// with [`OmFilesError::FileTooSmall`] if the file is too small for a header, and with
    /// [`OmFilesError::NotAnOmFile`] if it has neither format.
    pub fn new(backend: Arc<Backend>, file_size: usize) -> (action: OpenAction<Backend>)
        ensures
            action@ == open_start(backend, file_size),
            action@ matches OpenActionView::Fetch(opening) ==> opening.fits(),
    {
        if file_size >= TRAILER_SIZE {
            OpenAction::Fetch(Opening { backend, file_size, stage: OpenStage::Trailer })
        } else {
            Opening::legacy(backend, file_size)
        }
    }
}

impl<Backend> Opening<Backend> {
    #[verifier::type_invariant]
    spec fn fits(self) -> bool {
        self@.fits()
    }

    /// Turns to the legacy format.
    fn legacy(backend: Arc<Backend>, file_size: usize) -> (action: OpenAction<Backend>)
        ensures
            action@ == try_legacy(backend, file_size),
    {
        if file_size < HEADER_SIZE {
            OpenAction::Failed(OmFilesError::FileTooSmall)
        } else {
            OpenAction::Fetch(Opening { backend, file_size, stage: OpenStage::LegacyHeader })
        }
    }

    /// The bytes that are waited for.
    pub fn request(&self) -> (request: OmOffsetSize)
        ensures
            request == self@.request(),
            self@.fits(),
    {
        proof {
            use_type_invariant(self);
        }
        match self.stage {
            OpenStage::Trailer => OmOffsetSize::new(
                (self.file_size - TRAILER_SIZE) as u64,
                TRAILER_SIZE as u64,
            ),
            OpenStage::Root(offset_size) => offset_size,
            OpenStage::LegacyHeader => OmOffsetSize::new(0, HEADER_SIZE as u64),
        }
    }

    /// Goes on with `root`, what the trailer says about the root variable.
    pub fn after_trailer(self, root: Result<OmOffsetSize, OmFilesError>) -> (action: OpenAction<
        Backend,
    >)
        ensures
            action@ == open_after_trailer(
                self@.backend,
                self@.file_size,
                crate::errors::result_view(root),
            ),
    {
        match root {
            Ok(offset_size) => OpenAction::Fetch(
                Opening {
                    backend: self.backend,
                    file_size: self.file_size,
                    stage: OpenStage::Root(offset_size),
                },
            ),
            Err(OmFilesError::NotAnOmFile) => Opening::legacy(self.backend, self.file_size),
            Err(error) => OpenAction::Failed(error),
        }
    }

    /// Goes on with the reply to the request.
    pub fn resume(self, reply: Result<Vec<u8>, OmFilesError>) -> (action: OpenAction<Backend>)
        ensures
            action@ == open_resume(self@, reader_async::reply_view(reply)),
    {
        let bytes = match reply {
            Ok(bytes) => bytes,
            Err(error) => return OpenAction::Failed(error),
        };
        match self.stage {
            OpenStage::Trailer => {
                let root = process_trailer(bytes.as_slice());
                self.after_trailer(root)
            },
            OpenStage::Root(offset_size) => Opening::settle(self.backend, offset_size, bytes),
            OpenStage::LegacyHeader => {
                if header_type(bytes.as_slice()) != HeaderType::Legacy {
                    return OpenAction::Failed(OmFilesError::NotAnOmFile);
                }
                let header = OmOffsetSize::new(0, HEADER_SIZE as u64);
                Opening::settle(self.backend, header, bytes)
            },
        }
    }

    /// Ends the opening with the metadata of the root variable.
    fn settle(backend: Arc<Backend>, offset_size: OmOffsetSize, bytes: Vec<u8>) -> (action:
        OpenAction<Backend>)
        ensures
            action@ == open_settled(
                reader_async::reader_at(
                    backend,
                    offset_size,
                    reader_async::complete_block(bytes@),
                ),
            ),
    {
        match create_variable_from_offset(Ok(bytes)) {
            Ok(variable) => OpenAction::Opened(
                OmFileReaderAsync::from_parts(backend, variable, offset_size),
            ),
            Err(error) => OpenAction::Failed(error),
        }
    }
}

/// The reply of a backend that serves `file` and refuses what lies beyond its end.
pub open spec fn served(file: Seq<u8>, request: OmOffsetSize, refusal: ErrorView) -> Result<
    Seq<u8>,
    ErrorView,
> {
    if request.offset + request.size <= file.len() {
        Ok(file.subrange(request.offset as int, request.offset + request.size))
    } else {
        Err(refusal)
    }
}

/// One round of opening `file`: if bytes are waited for, they are served.
pub open spec fn open_round<Backend>(
    action: OpenActionView<Backend>,
    file: Seq<u8>,
    refusal: ErrorView,
) -> OpenActionView<Backend> {
    match action {
        OpenActionView::Fetch(opening) => open_resume(
            opening,
            served(file, opening.request(), refusal),
        ),
        settled => settled,
    }
}

/// What opening `file` comes to in the end: a file with a trailer is opened at the root variable
/// that the trailer points to, a legacy file at its header, and any other file is refused.
pub open spec fn opened_file<Backend>(
    backend: Arc<Backend>,
    file: Seq<u8>,
    refusal: ErrorView,
) -> OpenActionView<Backend> {
    let trailer = if file.len() >= TRAILER_SIZE {
        file_format::spec_trailer(file.subrange(file.len() - TRAILER_SIZE, file.len() as int))
    } else {
        None
    };
    match trailer {
        Some(root) => open_settled(
            reader_async::reader_at(
                backend,
                root,
                reader_async::fetched_block(served(file, root, refusal)),
            ),
        ),
        None => if file.len() < HEADER_SIZE {
            OpenActionView::Failed(ErrorView::FileTooSmall)
        } else if file_format::spec_header_type(file) is Legacy {
            OpenActionView::Opened(
                ReaderView {
                    backend,
                    block: file.subrange(0, HEADER_SIZE as int),
                    offset_size: OmOffsetSize { offset: 0, size: HEADER_SIZE as u64 },
                },
            )
        } else {
            OpenActionView::Failed(ErrorView::NotAnOmFile)
        },
    }
}

/// Opening a file is settled after two replies at most, and comes to what [`opened_file`] says.
pub proof fn law_opening_settles<Backend>(
    backend: Arc<Backend>,
    file: Seq<u8>,
    refusal: ErrorView,
)
    requires
        file.len() <= usize::MAX,
    ensures
        open_round(
            open_round(open_start(backend, file.len() as usize), file, refusal),
            file,
            refusal,
        ) == opened_file(backend, file, refusal),
{
    if file.len() >= HEADER_SIZE {
        let header = file.subrange(0, HEADER_SIZE as int);
        assert(header[0] == file[0] && header[1] == file[1] && header[2] == file[2]);
        assert(file_format::spec_header_type(header) == file_format::spec_header_type(file));
        if file_format::spec_header_type(file) is Legacy {
            assert(variable::block_layout(header) is Legacy);
            assert(variable::is_complete(header));
        }
    }
}

/// Fetching the metadata of the reader's variable once more, from where it is in `file`, makes the
/// same reader.
pub open spec fn leads_back<Backend>(
    reader: ReaderView<Backend>,
    file: Seq<u8>,
    refusal: ErrorView,
) -> bool {
    reader_async::reader_at(
        reader.backend,
        reader.offset_size,
        reader_async::fetched_block(served(file, reader.offset_size, refusal)),
    ) == Ok::<ReaderView<Backend>, ErrorView>(reader)
}

/// The location that the reader of an opened file keeps serves to come back to its root variable.
pub proof fn law_location_of_the_root_leads_back<Backend>(
    backend: Arc<Backend>,
    file: Seq<u8>,
    refusal: ErrorView,
)
    ensures
        opened_file(backend, file, refusal) matches OpenActionView::Opened(reader) ==> leads_back(
            reader,
            file,
            refusal,
        ),
{
    if file.len() >= HEADER_SIZE && file_format::spec_header_type(file) is Legacy {
        let header = file.subrange(0, HEADER_SIZE as int);
        assert(header[0] == file[0] && header[1] == file[1] && header[2] == file[2]);
        assert(variable::is_complete(header));
    }
}

/// A file is refused as too small if and only if it is smaller than a header and does not end in a
/// trailer, whatever the backend answers to requests beyond its end but that same refusal.
pub proof fn law_too_small<Backend>(backend: Arc<Backend>, file: Seq<u8>, refusal: ErrorView)
    requires
        refusal != ErrorView::FileTooSmall,
    ensures
        opened_file(backend, file, refusal) == OpenActionView::<Backend>::Failed(
            ErrorView::FileTooSmall,
        ) <==> {
            &&& file.len() < HEADER_SIZE
            &&& file.len() >= TRAILER_SIZE ==> file_format::spec_trailer(
                file.subrange(file.len() - TRAILER_SIZE, file.len() as int),
            ) is None
        },
{
}

} // verus!
