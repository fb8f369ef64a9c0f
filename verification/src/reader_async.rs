//! Readers of the variables in a file.

use std::sync::Arc;

use async_lock::Semaphore;
use vstd::prelude::*;

use crate::errors::{ErrorView, OmFilesError};
use crate::sharing::{self, share};
use crate::variable::{self, OmDataType, OmOffsetSize, OmVariable};

verus! {

/// The largest request, in bytes, that an array reader makes by default.
pub const DEFAULT_IO_SIZE_MAX: u64 = 65536;

/// The size, in bytes, below which an array reader merges requests by default.
pub const DEFAULT_IO_SIZE_MERGE: u64 = 512;

/// How many requests run at once by default.
pub const DEFAULT_MAX_CONCURRENCY: usize = 16;

/// Any variable of a file, with the backend that gives access to the rest of the file.
#[derive(Debug)]
pub struct OmFileReaderAsync<Backend> {
    /// The backend that gives access to the bytes of the file.
    pub backend: Arc<Backend>,
    /// The metadata of the variable.
    variable: OmVariable,
    /// Where the metadata is in the file; serves to come back to the variable later.
    offset_size: OmOffsetSize,
}

/// What a reader stands for.
pub struct ReaderView<Backend> {
    pub backend: Arc<Backend>,
    pub block: Seq<u8>,
    pub offset_size: OmOffsetSize,
}

impl<Backend> View for OmFileReaderAsync<Backend> {
    type V = ReaderView<Backend>;

    closed spec fn view(&self) -> ReaderView<Backend> {
        ReaderView {
            backend: self.backend,
            block: self.variable@,
            offset_size: self.offset_size,
        }
    }
}

/// A reply of a backend, with the bytes as a sequence and the error by its view.
pub open spec fn reply_view(reply: Result<Vec<u8>, OmFilesError>) -> Result<Seq<u8>, ErrorView> {
    match reply {
        Ok(bytes) => Ok(bytes@),
        Err(error) => Err(error@),
    }
}

/// The bytes as a complete metadata block, or the error in its place.
pub open spec fn complete_block(bytes: Seq<u8>) -> Result<Seq<u8>, ErrorView> {
    if variable::is_complete(bytes) {
        Ok(bytes)
    } else {
        Err(ErrorView::NotAnOmFile)
    }
}

/// What fetching the metadata of a variable comes to.
pub open spec fn fetched_block(reply: Result<Seq<u8>, ErrorView>) -> Result<Seq<u8>, ErrorView> {
    match reply {
        Ok(bytes) => complete_block(bytes),
        Err(error) => Err(error),
    }
}

/// The outcome of making a reader: the reader's view, or the error's.
pub open spec fn reader_outcome<Backend>(
    outcome: Result<OmFileReaderAsync<Backend>, OmFilesError>,
) -> Result<ReaderView<Backend>, ErrorView> {
    match outcome {
        Ok(reader) => Ok(reader@),
        Err(error) => Err(error@),
    }
}

/// The reader that a fetched block makes at `offset_size`, or the error in its place.
pub open spec fn reader_at<Backend>(
    backend: Arc<Backend>,
    offset_size: OmOffsetSize,
    block: Result<Seq<u8>, ErrorView>,
) -> Result<ReaderView<Backend>, ErrorView> {
    match block {
        Ok(block) => Ok(ReaderView { backend, block, offset_size }),
        Err(error) => Err(error),
    }
}

/// Makes the metadata of a variable from the reply to the request for its bytes.
pub fn create_variable_from_offset(reply: Result<Vec<u8>, OmFilesError>) -> (variable: Result<
    OmVariable,
    OmFilesError,
>)
    ensures
        match variable {
            Ok(variable) => fetched_block(reply_view(reply)) == Ok::<Seq<u8>, ErrorView>(variable@),
            Err(error) => fetched_block(reply_view(reply)) == Err::<Seq<u8>, ErrorView>(error@),
        },
{
    match reply {
        Ok(bytes) => OmVariable::new(bytes),
        Err(error) => Err(error),
    }
}

impl<Backend> OmFileReaderAsync<Backend> {
    /// A reader of a variable whose metadata is there.
    pub(crate) fn from_parts(
        backend: Arc<Backend>,
        variable: OmVariable,
        offset_size: OmOffsetSize,
    ) -> (reader: Self)
        ensures
            reader@ == (ReaderView { backend, block: variable@, offset_size }),
    {
        OmFileReaderAsync { backend, variable, offset_size }
    }

    /// The backend that gives access to the bytes of the file.
    pub fn backend(&self) -> (backend: &Arc<Backend>)
        ensures
            *backend == self@.backend,
    {
        &self.backend
    }

    /// The metadata of the variable.
    pub fn variable(&self) -> (variable: &OmVariable)
        ensures
            variable@ == self@.block,
    {
        &self.variable
    }

    /// Where the metadata of the variable is in the file.
    pub fn offset_size(&self) -> (offset_size: &OmOffsetSize)
        ensures
            *offset_size == self@.offset_size,
    {
        &self.offset_size
    }

    /// A reader of the variable at `offset_size`, made from the reply to the request for those
    /// bytes.
    pub fn new_from_offset(
        &self,
        offset_size: OmOffsetSize,
        reply: Result<Vec<u8>, OmFilesError>,
    ) -> (reader: Result<OmFileReaderAsync<Backend>, OmFilesError>)
        ensures
            reader_outcome(reader) == reader_at(
                self@.backend,
                offset_size,
                fetched_block(reply_view(reply)),
            ),
    {
        match create_variable_from_offset(reply) {
            Ok(variable) => Ok(
                OmFileReaderAsync::from_parts(share(&self.backend), variable, offset_size),
            ),
            Err(error) => Err(error),
        }
    }

    /// A reader of the variable's value, if the variable holds a single value.
    pub fn expect_scalar<'a>(&'a self) -> (scalar: Result<
        OmFileScalar<'a, Backend>,
        OmFilesError,
    >)
        ensures
            match scalar {
                Ok(scalar) => variable::block_is_scalar(self@.block) && scalar@ == self@,
                Err(error) => !variable::block_is_scalar(self@.block) && error
                    == OmFilesError::InvalidDataType,
            },
    {
        match self.variable.data_type() {
            Some(data_type) if data_type.is_scalar() => Ok(
                OmFileScalar::new(&self.backend, &self.variable, &self.offset_size),
            ),
            _ => Err(OmFilesError::InvalidDataType),
        }
    }

    /// A reader of the variable's elements, if the variable holds an array. Requests are limited
    /// to 65536 bytes, and those below 512 bytes are merged.
    pub fn expect_array<'a>(&'a self) -> (array: Result<OmFileAsyncArray<'a, Backend>, OmFilesError>)
        ensures
            match array {
                Ok(array) => variable::block_is_array(self@.block) && array@ == default_array(
                    self@,
                    DEFAULT_IO_SIZE_MAX,
                    DEFAULT_IO_SIZE_MERGE,
                ),
                Err(error) => !variable::block_is_array(self@.block) && error
                    == OmFilesError::InvalidDataType,
            },
    {
        self.expect_array_with_io_sizes(DEFAULT_IO_SIZE_MAX, DEFAULT_IO_SIZE_MERGE)
    }

    /// A reader of the variable's elements, if the variable holds an array, with the given limits
    /// on the sizes of requests.
    pub fn expect_array_with_io_sizes<'a>(
        &'a self,
        io_size_max: u64,
        io_size_merge: u64,
    ) -> (array: Result<OmFileAsyncArray<'a, Backend>, OmFilesError>)
        ensures
            match array {
                Ok(array) => variable::block_is_array(self@.block) && array@ == default_array(
                    self@,
                    io_size_max,
                    io_size_merge,
                ),
                Err(error) => !variable::block_is_array(self@.block) && error
                    == OmFilesError::InvalidDataType,
            },
    {
        match self.variable.data_type() {
            Some(data_type) if data_type.is_array() => Ok(
                OmFileAsyncArray {
                    backend: &self.backend,
                    variable: &self.variable,
                    offset_size: &self.offset_size,
                    semaphore: Arc::new(Semaphore::new(DEFAULT_MAX_CONCURRENCY)),
                    io_size_max,
                    io_size_merge,
                },
            ),
            _ => Err(OmFilesError::InvalidDataType),
        }
    }
}

/// A variable that holds a single value.
#[derive(Debug)]
pub struct OmFileScalar<'a, Backend> {
    backend: &'a Arc<Backend>,
    variable: &'a OmVariable,
    offset_size: &'a OmOffsetSize,
}

impl<'a, Backend> View for OmFileScalar<'a, Backend> {
    type V = ReaderView<Backend>;

    closed spec fn view(&self) -> ReaderView<Backend> {
        ReaderView {
            backend: *self.backend,
            block: self.variable@,
            offset_size: *self.offset_size,
        }
    }
}

impl<'a, Backend> OmFileScalar<'a, Backend> {
    pub(crate) fn new(
        backend: &'a Arc<Backend>,
        variable: &'a OmVariable,
        offset_size: &'a OmOffsetSize,
    ) -> (scalar: Self)
        ensures
            scalar@ == (ReaderView {
                backend: *backend,
                block: variable@,
                offset_size: *offset_size,
            }),
    {
        OmFileScalar { backend, variable, offset_size }
    }

    /// The backend that gives access to the bytes of the file.
    pub fn backend(&self) -> (backend: &Arc<Backend>)
        ensures
            *backend == self@.backend,
    {
        self.backend
    }

    /// The metadata of the variable.
    pub fn variable(&self) -> (variable: &OmVariable)
        ensures
            variable@ == self@.block,
    {
        self.variable
    }

    /// Where the metadata of the variable is in the file.
    pub fn offset_size(&self) -> (offset_size: &OmOffsetSize)
        ensures
            *offset_size == self@.offset_size,
    {
        self.offset_size
    }
}

/// A variable that holds an array, with the limits on the requests for its elements.
#[derive(Debug)]
pub struct OmFileAsyncArray<'a, Backend> {
    /// The backend that gives access to the bytes of the file.
    backend: &'a Arc<Backend>,
    /// The metadata of the variable.
    variable: &'a OmVariable,
    /// Where the metadata is in the file.
    offset_size: &'a OmOffsetSize,
    /// The permits for concurrent requests.
    semaphore: Arc<Semaphore>,
    io_size_max: u64,
    io_size_merge: u64,
}

/// What an array reader stands for.
pub struct ArrayView<Backend> {
    pub reader: ReaderView<Backend>,
    pub max_concurrency: nat,
    pub io_size_max: u64,
    pub io_size_merge: u64,
}

/// The array reader of the variable of `reader`, with the default number of permits.
pub open spec fn default_array<Backend>(
    reader: ReaderView<Backend>,
    io_size_max: u64,
    io_size_merge: u64,
) -> ArrayView<Backend> {
    ArrayView {
        reader,
        max_concurrency: DEFAULT_MAX_CONCURRENCY as nat,
        io_size_max,
        io_size_merge,
    }
}

/// The array reader with another number of permits.
pub open spec fn with_permits<Backend>(array: ArrayView<Backend>, permits: nat) -> ArrayView<
    Backend,
> {
    ArrayView { max_concurrency: permits, ..array }
}

impl<'a, Backend> View for OmFileAsyncArray<'a, Backend> {
    type V = ArrayView<Backend>;

    closed spec fn view(&self) -> ArrayView<Backend> {
        ArrayView {
            reader: ReaderView {
                backend: *self.backend,
                block: self.variable@,
                offset_size: *self.offset_size,
            },
            max_concurrency: sharing::semaphore_limit(*self.semaphore),
            io_size_max: self.io_size_max,
            io_size_merge: self.io_size_merge,
        }
    }
}

impl<'a, Backend> OmFileAsyncArray<'a, Backend> {
    /// The backend that gives access to the bytes of the file.
    pub fn backend(&self) -> (backend: &Arc<Backend>)
        ensures
            *backend == self@.reader.backend,
    {
        self.backend
    }

    /// The metadata of the variable.
    pub fn variable(&self) -> (variable: &OmVariable)
        ensures
            variable@ == self@.reader.block,
    {
        self.variable
    }

    /// Where the metadata of the variable is in the file.
    pub fn offset_size(&self) -> (offset_size: &OmOffsetSize)
        ensures
            *offset_size == self@.reader.offset_size,
    {
        self.offset_size
    }

    /// The permits for concurrent requests.
    pub fn semaphore(&self) -> (semaphore: &Arc<Semaphore>)
        ensures
            sharing::semaphore_limit(**semaphore) == self@.max_concurrency,
    {
        &self.semaphore
    }

    /// The largest request, in bytes.
    pub fn io_size_max(&self) -> (size: u64)
        ensures
            size == self@.io_size_max,
    {
        self.io_size_max
    }

    /// The size, in bytes, below which requests are merged.
    pub fn io_size_merge(&self) -> (size: u64)
        ensures
            size == self@.io_size_merge,
    {
        self.io_size_merge
    }

    /// A reader of the variable at `offset_size`, made from the reply to the request for those
    /// bytes.
    pub fn new_from_offset(
        &self,
        offset_size: OmOffsetSize,
        reply: Result<Vec<u8>, OmFilesError>,
    ) -> (reader: Result<OmFileReaderAsync<Backend>, OmFilesError>)
        ensures
            reader_outcome(reader) == reader_at(
                self@.reader.backend,
                offset_size,
                fetched_block(reply_view(reply)),
            ),
    {
        match create_variable_from_offset(reply) {
            Ok(variable) => Ok(
                OmFileReaderAsync::from_parts(share(self.backend), variable, offset_size),
            ),
            Err(error) => Err(error),
        }
    }

    /// Whether the elements of the array are those of a variable of type `element`, an array type.
    pub fn check_element_type(&self, element: OmDataType) -> (checked: Result<(), OmFilesError>)
        ensures
            match checked {
                Ok(_) => variable::block_type_code(self@.reader.block) == element.spec_code(),
                Err(error) => variable::block_type_code(self@.reader.block) != element.spec_code()
                    && error == OmFilesError::InvalidDataType,
            },
    {
        match self.variable.data_type() {
            Some(data_type) if data_type == element => Ok(()),
            _ => Err(OmFilesError::InvalidDataType),
        }
    }

    /// Sets how many requests may run at once.
    pub fn set_max_concurrency(&mut self, max_concurrency: usize)
        requires
            max_concurrency > 0,
        ensures
            final(self)@ == with_permits(old(self)@, max_concurrency as nat),
            final(self)@ == (ArrayView { max_concurrency: max_concurrency as nat, ..old(self)@ }),
    {
        self.semaphore = Arc::new(Semaphore::new(max_concurrency));
    }
}

} // verus!
