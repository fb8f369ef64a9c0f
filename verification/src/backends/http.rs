//! Files served over HTTP, read with range requests.
//!
//! The size of a file is the `Content-Length` that a `HEAD` request reports; its bytes are fetched
//! with `GET` requests that carry a `Range` header.

use vstd::prelude::*;

use crate::decimal::{self, append_decimal, parse_decimal};
use crate::errors::{ErrorView, OmFilesError};

verus! {

/// A file at a URL, with its size.
#[derive(Debug)]
pub struct HttpBackend {
    url: String,
    file_size: u64,
}

/// What a [`HttpBackend`] stands for.
pub struct HttpBackendView {
    pub url: Seq<char>,
    pub file_size: u64,
}

impl View for HttpBackend {
    type V = HttpBackendView;

    closed spec fn view(&self) -> HttpBackendView {
        HttpBackendView { url: self.url@, file_size: self.file_size }
    }
}

/// What came of a range request.
#[derive(Debug)]
pub enum RangeReply {
    /// The request failed; the text says why.
    RequestFailed(String),
    /// The body of the response could not be read; the text says why.
    BodyFailed(String),
    /// The body of the response.
    Body(Vec<u8>),
}

/// The size that the reply to a `HEAD` request reports. The reply is the value of the
/// `Content-Length` header, if there is one, or the reason why the request failed.
pub open spec fn reported_size(reply: Result<Option<Vec<u8>>, String>) -> Result<u64, ErrorView> {
    match reply {
        Err(cause) => Err(ErrorView::GenericError("HTTP HEAD request failed: "@ + cause@)),
        Ok(header) => {
            let size = match header {
                Some(value) => decimal::parsed(value@),
                None => None,
            };
            match size {
                Some(size) => Ok(size),
                None => Err(
                    ErrorView::GenericError(
                        "HTTP response is missing a numeric Content-Length header"@,
                    ),
                ),
            }
        },
    }
}

/// The bytes that a range request came to.
pub open spec fn received(reply: RangeReply) -> Result<Seq<u8>, ErrorView> {
    match reply {
        RangeReply::RequestFailed(cause) => Err(
            ErrorView::GenericError("HTTP GET request failed: "@ + cause@),
        ),
        RangeReply::BodyFailed(cause) => Err(
            ErrorView::GenericError("Failed to read HTTP response body: "@ + cause@),
        ),
        RangeReply::Body(bytes) => Ok(bytes@),
    }
}

/// The text that asks for `count` bytes from `offset` on: the numbers of the first and of the last
/// byte.
pub open spec fn range_text(offset: u64, count: u64) -> Seq<char> {
    "bytes="@ + decimal::decimal(offset as nat) + "-"@ + decimal::decimal(
        (offset + count - 1) as nat,
    )
}

/// An error that says what failed and why.
fn failure(what: &str, cause: &String) -> (error: OmFilesError)
    ensures
        error@ == ErrorView::GenericError(what@ + cause@),
{
    let mut text = String::from_str(what);
    text.append(cause.as_str());
    OmFilesError::GenericError(text)
}

impl HttpBackend {
    /// A backend for the file at `url`, made from the reply to a `HEAD` request for it: the value
    /// of the `Content-Length` header, if there is one, or the reason why the request failed.
    pub fn new(url: String, reply: Result<Option<Vec<u8>>, String>) -> (backend: Result<
        HttpBackend,
        OmFilesError,
    >)
        ensures
            match backend {
                Ok(backend) => reported_size(reply) == Ok::<u64, ErrorView>(
                    backend@.file_size,
                ) && backend@.url == url@,
                Err(error) => reported_size(reply) == Err::<u64, ErrorView>(error@),
            },
    {
        match HttpBackend::content_length(reply) {
            Ok(file_size) => Ok(HttpBackend { url, file_size }),
            Err(error) => Err(error),
        }
    }

    /// The size that the reply to a `HEAD` request reports.
    pub fn content_length(reply: Result<Option<Vec<u8>>, String>) -> (size: Result<
        u64,
        OmFilesError,
    >)
        ensures
            crate::errors::result_view(size) == reported_size(reply),
    {
        match reply {
            Err(cause) => Err(failure("HTTP HEAD request failed: ", &cause)),
            Ok(header) => {
                let size = match &header {
                    Some(value) => parse_decimal(value.as_slice()),
                    None => None,
                };
                match size {
                    Some(size) => Ok(size),
                    None => Err(
                        OmFilesError::GenericError(
                            String::from_str(
                                "HTTP response is missing a numeric Content-Length header",
                            ),
                        ),
                    ),
                }
            },
        }
    }

    /// The URL of the file.
    pub fn url(&self) -> (url: &str)
        ensures
            url@ == self@.url,
    {
        self.url.as_str()
    }

    /// The size of the file in bytes.
    pub fn count_async(&self) -> (count: usize)
        ensures
            count == self@.file_size as usize,
    {
        self.file_size as usize
    }

    /// The value of the `Range` header that asks for `count` bytes from `offset` on; both ends of
    /// the range belong to it.
    pub fn range_header(offset: u64, count: u64) -> (header: String)
        requires
            0 < offset + count <= u64::MAX,
        ensures
            header@ == range_text(offset, count),
            header@ == "bytes="@ + decimal::decimal(offset as nat) + "-"@ + decimal::decimal(
                (offset + count - 1) as nat,
            ),
    {
        let mut header = String::from_str("bytes=");
        append_decimal(&mut header, offset);
        header.append("-");
        append_decimal(&mut header, offset + count - 1);
        header
    }

    /// The bytes that a range request came to.
    pub fn get_bytes(reply: RangeReply) -> (bytes: Result<Vec<u8>, OmFilesError>)
        ensures
            crate::reader_async::reply_view(bytes) == received(reply),
    {
        match reply {
            RangeReply::RequestFailed(cause) => Err(failure("HTTP GET request failed: ", &cause)),
            RangeReply::BodyFailed(cause) => Err(
                failure("Failed to read HTTP response body: ", &cause),
            ),
            RangeReply::Body(bytes) => Ok(bytes),
        }
    }
}

} // verus!
