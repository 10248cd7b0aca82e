//! Message framing for HTTP/1.1: request lines, field lines, body decoding,
//! request assembly and response serialization, each with a verified contract.
pub mod error;
pub mod wire;
pub mod request_line;
pub mod headers;
pub mod body;
pub mod request;
pub mod response;

pub use error::{ErrorMsg, HttpError, Utf8Field};
pub use request_line::{RequestMethod, parse_request_line};
pub use headers::{Headers, parse_field_lines, parse_field_section};
pub use body::{ChunkState, decode_chunked, parse_chunked_message, parse_fixed_message};
pub use request::{ParsingState, Request, parse, parse_request_body};
pub use response::Response;
