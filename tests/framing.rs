use http_core::body::{parse_chunked_message, parse_fixed_message};
use http_core::error::{ErrorMsg, HttpError};
use http_core::headers::parse_field_lines;
use http_core::request_line::{parse_request_line, RequestMethod};
use http_core::response::Response;

#[test]
fn test_chunk_body() {
    let mut body: Vec<u8> = Vec::new();
    let mut input: &[u8] = b"6\r\nHello \r\n5\r\nWorld\r\n0\r\n\r\n";

    let result = parse_chunked_message(input, &mut body).unwrap();

    let hello = b"Hello";
    assert_eq!(result, 26);
    let result_slice = &body[0..5];
    assert_eq!(result_slice, hello);

    input = b"6\r\nHello \r\n%\r\nWorld\r\n0\r\n\r\n";
    body = Vec::new();
    let result_err = parse_chunked_message(input, &mut body).unwrap_err();

    assert_eq!(result_err, HttpError::InvalidChunkSize);
    assert_eq!(result_err.message(), "Invalid chunk size number");
}

#[test]
fn test_parse_fixed_message() {
    let mut body: Vec<u8> = Vec::new();
    let mut input: &[u8] = b"This is a valid input, okay";
    let mut content_length: usize = 27;

    let mut result = parse_fixed_message(input, content_length, &mut body).unwrap();

    assert_eq!(result, 27);
    assert_eq!(&body[0..4], b"This");
    assert_eq!(&body[body.len() - 4..], b"okay");

    input = b"This is a cut, exceed content length";
    content_length = 13;

    body = Vec::new();
    result = parse_fixed_message(input, content_length, &mut body).unwrap();

    assert_eq!(result, 13);
    assert_eq!(&body[body.len() - 4..], b" cut");

    input = b"shorter one";
    content_length = 13;
    let result = parse_fixed_message(input, content_length, &mut body).unwrap_err();

    assert_eq!(result, HttpError::NeedMoreData);
    assert_eq!(result.message(), "Incomplete message: waiting for data");
}

#[test]
fn test_parse_field_lines() {
    let mut input: &[u8] = b"Authorization: mytoken \r\nContent-type: application/json \r\n";

    let (headers, read) = parse_field_lines(input).unwrap();
    let authorization = headers.get("authorization");
    assert_eq!(authorization, Some("mytoken"));

    let content_type = headers.get("content-type");
    assert_eq!(content_type, Some("application/json"));
    assert_eq!(read, 58);

    input = b" Authorization: my token \r\nContent-type: application/json \r\n";
    let mut x = parse_field_lines(input);
    let mut error = x.unwrap_err();

    assert_eq!(error, HttpError::InvalidFieldLine);

    input = b"A/uthorization: my token \r\nContent-type: application/json \r\n";
    x = parse_field_lines(input);
    error = x.unwrap_err();
    assert_eq!(error, HttpError::InvalidFieldLine);
}

#[test]
fn request_test_parse_request_line() {
    let mut input: &[u8] = b"GET / HTTP/1.1";

    let (m, t, v, bytes_read) = parse_request_line(&input).unwrap();

    assert_eq!(m, RequestMethod::Get);
    assert_eq!(t, "/");
    assert_eq!(v, "HTTP/1.1");
    assert_eq!(bytes_read, 16);

    input = b"HOST /helllo HTTP/1.1";
    let mut result = parse_request_line(&input);
    let mut error = result.unwrap_err();

    assert_eq!(error, HttpError::UnsupportedMethod);
    assert_eq!(error.message(), "This request method is not implemented.");

    input = b"POST HTTP/1.1";
    result = parse_request_line(&input);
    error = result.unwrap_err();

    assert_eq!(error, HttpError::MalformedStartLine);
    assert_eq!(error.message(), ErrorMsg::MALFROMED_START_LINE);

    input = b"PATCH /hello Http/1.1";
    result = parse_request_line(&input);
    error = result.unwrap_err();

    assert_eq!(error, HttpError::InvalidHttpSpecification);
    assert_eq!(error.message(), ErrorMsg::INVALID_HTTP_SPECIFICATION);

    input = b"PATCH /hello Http 1.1";
    result = parse_request_line(&input);
    error = result.unwrap_err();

    assert_eq!(error, HttpError::MalformedStartLine);
    assert_eq!(error.message(), ErrorMsg::MALFROMED_START_LINE);

    input = b"PATCH /hello HTTP/2.1";
    result = parse_request_line(&input);
    error = result.unwrap_err();

    assert_eq!(error, HttpError::InvalidHttpVersion);
    assert_eq!(error.message(), ErrorMsg::INVALID_HTTP_VERSION);

    input = b"PATCH /hello HTTP/1.1";
    let result = parse_request_line(&input).unwrap();

    assert_eq!(result.0, RequestMethod::Patch);
    assert_eq!(result.1, "/hello");
    assert_eq!(result.2, "HTTP/1.1");
}

#[test]
fn test_parse_request_line() {
    let mut input: &[u8] = b"GET / HTTP/1.1";

    let (m, t, v, _) = parse_request_line(&input).unwrap();

    assert_eq!(m, RequestMethod::Get);
    assert_eq!(t, "/");
    assert_eq!(v, "HTTP/1.1");

    input = b"HOST /helllo HTTP/1.1";
    let mut result = parse_request_line(&input);
    let mut error = result.unwrap_err();

    assert_eq!(error, HttpError::UnsupportedMethod);
    assert_eq!(error.message(), "This request method is not implemented.");

    input = b"POST HTTP/1.1";
    result = parse_request_line(&input);
    error = result.unwrap_err();
    assert_eq!(error.message(), ErrorMsg::MALFROMED_START_LINE);

    input = b"PATCH /hello Http/1.1";
    result = parse_request_line(&input);
    error = result.unwrap_err();
    assert_eq!(error.message(), ErrorMsg::INVALID_HTTP_SPECIFICATION);

    input = b"PATCH /hello Http 1.1";
    result = parse_request_line(&input);
    error = result.unwrap_err();
    assert_eq!(error.message(), ErrorMsg::MALFROMED_START_LINE);

    input = b"PATCH /hello HTTP/2.1";
    result = parse_request_line(&input);
    error = result.unwrap_err();
    assert_eq!(error.message(), ErrorMsg::INVALID_HTTP_VERSION);

    input = b"PATCH /hello HTTP/1.1";
    let result = parse_request_line(&input).unwrap();

    assert_eq!(result.0, RequestMethod::Patch);
    assert_eq!(result.1, "/hello");
    assert_eq!(result.2, "HTTP/1.1");
}

#[test]
fn test_ok_response() {
    let mut mock_socket = Vec::new();

    Response::ok(&mut mock_socket, Some(b"Test is OK."));

    let output = String::from_utf8_lossy(&mock_socket);

    assert!(output.contains("Test is OK."));
    assert!(output.contains("HTTP/1.1"));
    assert!(output.contains("200 OK"));
}

#[test]
fn test_not_found() {
    let mut mock_socket = Vec::new();

    Response::not_found(&mut mock_socket, Some(b"Test is Not Found."));

    let output = String::from_utf8_lossy(&mock_socket);

    assert!(output.contains("Test is Not Found."));
    assert!(output.contains("HTTP/1.1"));
    assert!(output.contains("404 NOT FOUND"));
}

#[test]
fn test_bad_request() {
    let mut mock_socket = Vec::new();

    Response::bad_request(&mut mock_socket, Some(b"Test is Bad Request."));

    let output = String::from_utf8_lossy(&mock_socket);

    assert!(output.contains("Test is Bad Request."));
    assert!(output.contains("HTTP/1.1"));
    assert!(output.contains("400 BAD REQUEST"));
}
