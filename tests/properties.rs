use http_core::body::{decode_chunked, parse_chunked_message, parse_fixed_message, ChunkState, MAX_LENGTH};
use http_core::error::{HttpError, Utf8Field};
use http_core::headers::{is_token_char, parse_field_lines, parse_field_section, Headers};
use http_core::request::{parse, parse_request_body, ParsingState, Request};
use http_core::request_line::{parse_request_line, RequestMethod};
use http_core::response::Response;

#[test]
fn request_line_round_trips() {
    let cases: [(&str, RequestMethod); 5] = [
        ("GET", RequestMethod::Get),
        ("POST", RequestMethod::Post),
        ("PUT", RequestMethod::Put),
        ("PATCH", RequestMethod::Patch),
        ("DELETE", RequestMethod::Delete),
    ];
    for (name, method) in cases.iter() {
        for version in ["HTTP/1.0", "HTTP/1.1", "HTTPS/1.0", "HTTPS/1.1"] {
            let line = format!("{} /a/b?c=d {}", name, version);
            let (m, t, v, n) = parse_request_line(line.as_bytes()).unwrap();
            assert_eq!(m, *method);
            assert_eq!(t, "/a/b?c=d");
            assert_eq!(v, version);
            assert_eq!(n, line.len() + 2);
        }
    }
}

#[test]
fn request_line_scenarios() {
    let (m, t, v, n) = parse_request_line(b"GET / HTTP/1.1").unwrap();
    assert_eq!((m, t.as_str(), v.as_str(), n), (RequestMethod::Get, "/", "HTTP/1.1", 16));
    assert_eq!(parse_request_line(b"HOST /x HTTP/1.1").unwrap_err(), HttpError::UnsupportedMethod);
    assert_eq!(parse_request_line(b"POST HTTP/1.1").unwrap_err(), HttpError::MalformedStartLine);
    assert_eq!(
        parse_request_line(b"PATCH /x Http/1.1").unwrap_err(),
        HttpError::InvalidHttpSpecification
    );
    assert_eq!(parse_request_line(b"PATCH /x HTTP/2.1").unwrap_err(), HttpError::InvalidHttpVersion);
}

#[test]
fn request_line_edge_cases() {
    assert_eq!(parse_request_line(b"").unwrap_err(), HttpError::MalformedStartLine);
    assert_eq!(parse_request_line(b"GET  / HTTP/1.1").unwrap_err(), HttpError::MalformedStartLine);
    assert_eq!(parse_request_line(b"get / HTTP/1.1").unwrap_err(), HttpError::UnsupportedMethod);
    assert_eq!(parse_request_line(b"GET / HTTP").unwrap_err(), HttpError::InvalidHttpSpecification);
    assert_eq!(parse_request_line(b"GET / HTTP/1.1/x").unwrap_err(), HttpError::InvalidHttpVersion);
    assert_eq!(
        parse_request_line(b"GET /\xff HTTP/1.1").unwrap_err(),
        HttpError::InvalidUtf8(Utf8Field::Target)
    );
    assert_eq!(
        parse_request_line(b"\xff /x HTTP/1.1").unwrap_err(),
        HttpError::InvalidUtf8(Utf8Field::Method)
    );
    assert_eq!(
        parse_request_line(b"GET /x HTTP/1.\xff").unwrap_err(),
        HttpError::InvalidUtf8(Utf8Field::Version)
    );
    let (_, t, _, n) = parse_request_line("GET /caf\u{e9} HTTP/1.0".as_bytes()).unwrap();
    assert_eq!(t, "/caf\u{e9}");
    assert_eq!(n, 21);
}

#[test]
fn repeated_fields_fold() {
    let input: &[u8] = b"Accept: text/html\r\nX-A: 1\r\naccept:  image/png\t\r\n\r\n";
    let (headers, read, complete) = parse_field_section(input).unwrap();
    assert!(complete);
    assert_eq!(read, input.len());
    assert_eq!(headers.get("ACCEPT"), Some("text/html, image/png"));
    assert_eq!(headers.get("x-a"), Some("1"));
    assert_eq!(headers.get("missing"), None);
    assert_eq!(headers.iter().len(), 2);
    assert_eq!(headers.iter()[0].0, b"accept".to_vec());
}

#[test]
fn header_table_set_and_get() {
    let mut h = Headers::new();
    h.set(b"Authorization", "mytoken");
    h.set(b"Content-type", "application/json");
    h.set(b"AUTHORIZATION", "other");
    assert_eq!(h.get("authorization"), Some("mytoken, other"));
    assert_eq!(h.get("Content-Type"), Some("application/json"));
}

#[test]
fn field_name_with_slash_is_refused() {
    assert_eq!(parse_field_lines(b"A/b: c\r\n\r\n").unwrap_err(), HttpError::InvalidFieldLine);
    assert_eq!(parse_field_lines(b"No colon here\r\n\r\n").unwrap_err(), HttpError::InvalidFieldLine);
    assert_eq!(parse_field_lines(b": empty name\r\n\r\n").unwrap_err(), HttpError::InvalidFieldLine);
    assert_eq!(
        parse_field_lines(b"Name: \xff\r\n\r\n").unwrap_err(),
        HttpError::InvalidUtf8(Utf8Field::FieldValue)
    );
    assert!(!is_token_char(&b'/'));
    assert!(is_token_char(&b'~'));
    assert!(!is_token_char(&b' '));
}

#[test]
fn field_section_stops_without_terminator() {
    let (h, read, complete) = parse_field_section(b"Host: x\r\nPartial").unwrap();
    assert!(!complete);
    assert_eq!(read, 9);
    assert_eq!(h.get("host"), Some("x"));
    let (_, read, complete) = parse_field_section(b"\r\n").unwrap();
    assert!(complete);
    assert_eq!(read, 2);
}

#[test]
fn chunked_scenarios() {
    let mut body = Vec::new();
    let n = parse_chunked_message(b"6\r\nHello \r\n5\r\nWorld\r\n0\r\n\r\n", &mut body).unwrap();
    assert_eq!(n, 26);
    assert_eq!(body, b"Hello World".to_vec());

    let mut body = Vec::new();
    assert_eq!(
        parse_chunked_message(b"%\r\nabc\r\n0\r\n\r\n", &mut body).unwrap_err(),
        HttpError::InvalidChunkSize
    );
    let mut body = Vec::new();
    assert_eq!(
        parse_chunked_message(b"3\r\nabcXY0\r\n\r\n", &mut body).unwrap_err(),
        HttpError::MissingChunkTerminator
    );
    let mut body = Vec::new();
    let n = parse_chunked_message(b"A\r\n0123456789\r\n0\r\n\r\n", &mut body).unwrap();
    assert_eq!(n, 20);
    assert_eq!(body, b"0123456789".to_vec());
}

#[test]
fn chunked_resumes_across_calls() {
    let mut state = ChunkState::AwaitingSize;
    let mut body = Vec::new();
    let (n, done) = decode_chunked(b"5\r\nHel", &mut state, &mut body).unwrap();
    assert_eq!((n, done), (3, false));
    assert_eq!(state, ChunkState::AwaitingData(5));
    let (n, done) = decode_chunked(b"Hello\r\n0\r\n\r\n", &mut state, &mut body).unwrap();
    assert_eq!((n, done), (12, true));
    assert_eq!(body, b"Hello".to_vec());
}

#[test]
fn decoders_refuse_large_input() {
    let big = vec![b'a'; MAX_LENGTH];
    let mut body = Vec::new();
    assert_eq!(parse_fixed_message(&big, 3, &mut body).unwrap_err(), HttpError::BufferTooLarge);
    assert_eq!(parse_chunked_message(&big, &mut body).unwrap_err(), HttpError::BufferTooLarge);
    assert!(body.is_empty());
}

#[test]
fn fixed_scenarios() {
    let mut body = Vec::new();
    let input = b"This is a valid input, okay!";
    assert_eq!(input.len(), 28);
    assert_eq!(parse_fixed_message(input, 27, &mut body).unwrap(), 27);
    assert_eq!(body.len(), 27);
    assert_eq!(&body[0..4], b"This");
    assert_eq!(&body[23..], b"okay");

    let mut body = b"kept".to_vec();
    assert_eq!(parse_fixed_message(b"abc", 4, &mut body).unwrap_err(), HttpError::NeedMoreData);
    assert_eq!(body, b"kept".to_vec());
    assert!(HttpError::NeedMoreData.retryable());
    assert!(!HttpError::InvalidChunkSize.retryable());
}

#[test]
fn parse_whole_requests() {
    let req = parse(b"POST /submit HTTP/1.1\r\nHost: a\r\nContent-Length: 5\r\n\r\nhello").unwrap();
    assert_eq!(req.state, ParsingState::Done);
    assert_eq!(req.method, Some(RequestMethod::Post));
    assert_eq!(req.path.as_deref(), Some("/submit"));
    assert_eq!(req.version.as_deref(), Some("HTTP/1.1"));
    assert_eq!(req.body, b"hello".to_vec());
    assert_eq!(req.headers.as_ref().unwrap().get("host"), Some("a"));

    let req = parse(
        b"PUT /c HTTP/1.0\r\nTransfer-Encoding: gzip, Chunked\r\n\r\n3\r\nabc\r\n0\r\n\r\n",
    )
    .unwrap();
    assert_eq!(req.body, b"abc".to_vec());

    let req = parse(b"GET / HTTP/1.1\r\n\r\n").unwrap();
    assert!(req.body.is_empty());
    assert!(req.is_done());
    assert_eq!(req.state.as_str(), "done");
}

#[test]
fn parse_needs_more_data_or_fails() {
    assert_eq!(parse(b"GET / HTT").unwrap_err(), HttpError::NeedMoreData);
    assert_eq!(parse(b"GET / HTTP/1.1\r\nHost: a\r\n").unwrap_err(), HttpError::NeedMoreData);
    assert_eq!(
        parse(b"GET / HTTP/1.1\r\nContent-Length: 9\r\n\r\nabc").unwrap_err(),
        HttpError::NeedMoreData
    );
    assert_eq!(
        parse(b"GET / HTTP/1.1\r\nContent-Length: nine\r\n\r\n").unwrap_err(),
        HttpError::InvalidContentLength
    );
    assert_eq!(parse(b"TRACE / HTTP/1.1\r\n\r\n").unwrap_err(), HttpError::UnsupportedMethod);
    assert_eq!(parse(b"GET / HTTP/1.1\r\nBad Name: x\r\n\r\n").unwrap_err(), HttpError::InvalidFieldLine);
}

#[test]
fn assembler_steps() {
    let mut req = Request::new();
    assert_eq!(req.state, ParsingState::Init);
    assert_eq!(req.step(b"GET /x HT").unwrap_err(), HttpError::NeedMoreData);
    assert_eq!(req.state, ParsingState::Init);
    assert_eq!(req.step(b"GET /x HTTP/1.1\r\n").unwrap(), 17);
    assert_eq!(req.state, ParsingState::Header);
    assert_eq!(req.step(b"Content-Length: 2\r\n\r\n").unwrap(), 21);
    assert_eq!(req.state, ParsingState::Body);
    assert_eq!(req.step(b"ok").unwrap(), 2);
    assert_eq!(req.state, ParsingState::Done);
    assert_eq!(req.body, b"ok".to_vec());

    let mut bad = Request::new();
    assert_eq!(bad.step(b"GET x\r\n").unwrap_err(), HttpError::MalformedStartLine);
    assert_eq!(bad.state, ParsingState::Error);
    assert!(bad.is_done());
}

#[test]
fn body_without_headers_is_refused() {
    let mut req = Request::new();
    assert_eq!(parse_request_body(b"abc", &mut req).unwrap_err(), HttpError::MissingHeaders);
}

#[test]
fn response_wire_order() {
    let mut out = Vec::new();
    Response::ok(&mut out, Some(b"Test is OK."));
    let text = String::from_utf8(out).unwrap();
    assert!(text.starts_with("HTTP/1.1 200 OK\r\n"));
    let blank = text.find("\r\n\r\n").unwrap();
    assert!(text.find("Content-Length: 11\r\n").unwrap() < blank);
    assert!(text.ends_with("\r\n\r\nTest is OK."));

    let mut out = Vec::new();
    Response::not_found(&mut out, None);
    let text = String::from_utf8(out).unwrap();
    assert!(text.starts_with("HTTP/1.1 404 NOT FOUND\r\n"));
    assert!(text.ends_with("Content-Length: 18\r\n\r\nResource Not Found"));
}

#[test]
fn response_without_entity() {
    let r = Response::new(204, "No Content", None);
    assert_eq!(r.headers[2].0, "Content-Length");
    assert_eq!(r.headers[2].1, "0");
    let mut out = Vec::new();
    r.send(&mut out);
    let text = String::from_utf8(out).unwrap();
    assert_eq!(
        text,
        "HTTP/1.1 204 No Content\r\nServer: X-B-O-X\r\nConnection: close\r\nContent-Length: 0\r\n\r\n"
    );
    let mut out = Vec::new();
    Response::bad_request(&mut out, None);
    assert!(String::from_utf8(out).unwrap().ends_with("\r\n\r\nBad Request"));
}

#[test]
fn method_tokens() {
    assert_eq!(RequestMethod::from_token(b"DELETE"), Some(RequestMethod::Delete));
    assert_eq!(RequestMethod::from_token(b"PUT"), Some(RequestMethod::Put));
    assert_eq!(RequestMethod::from_token(b"Put"), None);
    assert_eq!(RequestMethod::from_token(b""), None);
}

#[test]
fn body_after_errors() {
    let mut body = b"pre".to_vec();
    assert_eq!(
        parse_chunked_message(b"2\r\nab\r\n3\r\nabcXY0\r\n\r\n", &mut body).unwrap_err(),
        HttpError::MissingChunkTerminator
    );
    assert_eq!(body, b"preab".to_vec());

    let mut body = b"pre".to_vec();
    assert_eq!(
        parse_chunked_message(b"2\r\nab\r\nzz\r\n", &mut body).unwrap_err(),
        HttpError::InvalidChunkSize
    );
    assert_eq!(body, b"preab".to_vec());

    let mut req = Request::new();
    req.step(b"GET / HTTP/1.1\r\n").unwrap();
    req.step(b"Content-Length: x1\r\n\r\n").unwrap();
    req.body = b"kept".to_vec();
    assert_eq!(parse_request_body(b"abc", &mut req).unwrap_err(), HttpError::InvalidContentLength);
    assert_eq!(req.body, b"kept".to_vec());

    let mut req = Request::new();
    req.step(b"GET / HTTP/1.1\r\n").unwrap();
    req.step(b"Content-Length: 10\r\n\r\n").unwrap();
    assert_eq!(req.step(b"abc").unwrap_err(), HttpError::NeedMoreData);
    assert!(req.body.is_empty());
    assert_eq!(req.state, ParsingState::Body);
}
