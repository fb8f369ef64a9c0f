//! The errors that reading a file can end in.

use vstd::prelude::*;

verus! {

/// Why a file, or a part of it, could not be read.
#[derive(Debug, PartialEq, Eq)]
pub enum OmFilesError {
    /// The file is smaller than the smallest header.
    FileTooSmall,
    /// The bytes do not follow the Open-Meteo format.
    NotAnOmFile,
    /// The variable does not hold the kind of value that was asked for.
    InvalidDataType,
    /// The target array is not one contiguous block of memory.
    ArrayNotContiguous,
    /// Fetching a data chunk failed; the text says why.
    TaskError(String),
    /// Any other failure; the text says what happened.
    GenericError(String),
}

/// An [`OmFilesError`] with its text as a sequence of characters.
pub enum ErrorView {
    FileTooSmall,
    NotAnOmFile,
    InvalidDataType,
    ArrayNotContiguous,
    TaskError(Seq<char>),
    GenericError(Seq<char>),
}

impl View for OmFilesError {
    type V = ErrorView;

    open spec fn view(&self) -> ErrorView {
        match self {
            OmFilesError::FileTooSmall => ErrorView::FileTooSmall,
            OmFilesError::NotAnOmFile => ErrorView::NotAnOmFile,
            OmFilesError::InvalidDataType => ErrorView::InvalidDataType,
            OmFilesError::ArrayNotContiguous => ErrorView::ArrayNotContiguous,
            OmFilesError::TaskError(text) => ErrorView::TaskError(text@),
            OmFilesError::GenericError(text) => ErrorView::GenericError(text@),
        }
    }
}

impl ErrorView {
    /// The text that describes the error.
    pub open spec fn message(self) -> Seq<char> {
        match self {
            ErrorView::FileTooSmall => "File too small"@,
            ErrorView::NotAnOmFile => "Not an OM file"@,
            ErrorView::InvalidDataType => "Invalid data type"@,
            ErrorView::ArrayNotContiguous => "Array not contiguous"@,
            ErrorView::TaskError(text) => "Task error: "@ + text,
            ErrorView::GenericError(text) => text,
        }
    }
}

impl OmFilesError {
    /// The text that describes the error.
    pub fn message(&self) -> (text: String)
        ensures
            text@ == self@.message(),
    {
        match self {
            OmFilesError::FileTooSmall => String::from_str("File too small"),
            OmFilesError::NotAnOmFile => String::from_str("Not an OM file"),
            OmFilesError::InvalidDataType => String::from_str("Invalid data type"),
            OmFilesError::ArrayNotContiguous => String::from_str("Array not contiguous"),
            OmFilesError::TaskError(cause) => {
                let mut text = String::from_str("Task error: ");
                text.append(cause.as_str());
                text
            },
            OmFilesError::GenericError(cause) => String::from_str(cause.as_str()),
        }
    }
}

/// A `Result` with its error taken by its view.
pub open spec fn result_view<T>(result: Result<T, OmFilesError>) -> Result<T, ErrorView> {
    match result {
        Ok(value) => Ok(value),
        Err(error) => Err(error@),
    }
}

} // verus!
