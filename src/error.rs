use vstd::prelude::*;

verus! {

/// The token of a request line, or the part of a field line, that failed to decode as UTF-8.
#[derive(Debug, Clone, Copy, PartialEq, Eq, Structural)]
pub enum Utf8Field {
    Method,
    Target,
    Version,
    FieldValue,
}

/// Every outcome of the framing core other than success.
///
/// `NeedMoreData` is the one retryable outcome: the input ended before a
/// decision could be made and nothing has been lost.
#[derive(Debug, Clone, Copy, PartialEq, Eq, Structural)]
pub enum HttpError {
    MalformedStartLine,
    UnsupportedMethod,
    InvalidHttpSpecification,
    InvalidHttpVersion,
    InvalidFieldLine,
    InvalidUtf8(Utf8Field),
    InvalidContentLength,
    InvalidChunkSize,
    MissingChunkTerminator,
    BufferTooLarge,
    MissingHeaders,
    NeedMoreData,
}

/// Diagnostic texts of the errors.
pub struct ErrorMsg;

impl ErrorMsg {
    pub const MALFROMED_START_LINE: &'static str = "malformed start line";
    pub const UNSUPPORTED_METHOD: &'static str = "This request method is not implemented.";
    pub const INVALID_HTTP_SPECIFICATION: &'static str = "Invalid HTTP specification.";
    pub const INVALID_HTTP_VERSION: &'static str = "Invalid HTTP version.";
    pub const INVALID_FIELD_LINE: &'static str = "Invalid field line.";
    pub const INVALID_UTF8: &'static str = "Invalid UTF-8";
    pub const INVALID_CONTENT_LENGTH: &'static str = "Invalid Content-Length";
    pub const INVALID_CHUNK_SIZE: &'static str = "Invalid chunk size number";
    pub const MISSING_CHUNK_TERMINATOR: &'static str = "Chunk missing CRLF";
    pub const BUFFER_TOO_LARGE: &'static str = "Exceeded max length";
    pub const MISSING_HEADERS: &'static str = "Headers missing during body parse";
    pub const NEED_MORE_DATA: &'static str = "Incomplete message: waiting for data";
}

impl HttpError {
    pub open spec fn is_retryable(self) -> bool {
        self is NeedMoreData
    }

    /// Whether the caller may retry once more bytes have arrived.
    pub fn retryable(&self) -> (r: bool)
        ensures
            r == self.is_retryable(),
    {
        matches!(self, HttpError::NeedMoreData)
    }

    pub open spec fn spec_message(self) -> &'static str {
        match self {
            HttpError::MalformedStartLine => ErrorMsg::MALFROMED_START_LINE,
            HttpError::UnsupportedMethod => ErrorMsg::UNSUPPORTED_METHOD,
            HttpError::InvalidHttpSpecification => ErrorMsg::INVALID_HTTP_SPECIFICATION,
            HttpError::InvalidHttpVersion => ErrorMsg::INVALID_HTTP_VERSION,
            HttpError::InvalidFieldLine => ErrorMsg::INVALID_FIELD_LINE,
            HttpError::InvalidUtf8(_) => ErrorMsg::INVALID_UTF8,
            HttpError::InvalidContentLength => ErrorMsg::INVALID_CONTENT_LENGTH,
            HttpError::InvalidChunkSize => ErrorMsg::INVALID_CHUNK_SIZE,
            HttpError::MissingChunkTerminator => ErrorMsg::MISSING_CHUNK_TERMINATOR,
            HttpError::BufferTooLarge => ErrorMsg::BUFFER_TOO_LARGE,
            HttpError::MissingHeaders => ErrorMsg::MISSING_HEADERS,
            HttpError::NeedMoreData => ErrorMsg::NEED_MORE_DATA,
        }
    }

    /// The diagnostic text of this error.
    pub fn message(&self) -> (r: &'static str)
        ensures
            r == self.spec_message(),
    {
        match self {
            HttpError::MalformedStartLine => ErrorMsg::MALFROMED_START_LINE,
            HttpError::UnsupportedMethod => ErrorMsg::UNSUPPORTED_METHOD,
            HttpError::InvalidHttpSpecification => ErrorMsg::INVALID_HTTP_SPECIFICATION,
            HttpError::InvalidHttpVersion => ErrorMsg::INVALID_HTTP_VERSION,
            HttpError::InvalidFieldLine => ErrorMsg::INVALID_FIELD_LINE,
            HttpError::InvalidUtf8(_) => ErrorMsg::INVALID_UTF8,
            HttpError::InvalidContentLength => ErrorMsg::INVALID_CONTENT_LENGTH,
            HttpError::InvalidChunkSize => ErrorMsg::INVALID_CHUNK_SIZE,
            HttpError::MissingChunkTerminator => ErrorMsg::MISSING_CHUNK_TERMINATOR,
            HttpError::BufferTooLarge => ErrorMsg::BUFFER_TOO_LARGE,
            HttpError::MissingHeaders => ErrorMsg::MISSING_HEADERS,
            HttpError::NeedMoreData => ErrorMsg::NEED_MORE_DATA,
        }
    }
}

} // verus!
