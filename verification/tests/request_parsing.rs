use edl_server::request::{BodyError, ParseCause, ProtocolError, Request, HEADER_CAPACITY};

fn raw(request: &str) -> Vec<u8> {
    request.as_bytes().to_vec()
}

#[test]
fn complete_head_is_parsed() {
    let body = "{\"edit_type\":\"CUT\",\"source_tape\":\"A001\",\"av_channel\":\"BOTH\"}";
    let text = format!(
        "POST /start HTTP/1.1\r\nContent-Length: {}\r\n\r\n{}",
        body.len(),
        body
    );
    let req = Request::new(raw(&text)).expect("head must parse");
    assert_eq!(req.method.as_deref(), Some("POST"));
    assert_eq!(req.path.as_deref(), Some("/start"));
    // the head ends right where the body begins
    let head_len = text.len() - body.len();
    assert_eq!(req.header_offset, head_len);
    assert_eq!(req.body().unwrap(), body.as_bytes().to_vec());
}

#[test]
fn incomplete_head_falls_back_to_header_capacity() {
    // no blank line ends the header block, so the head is incomplete
    let req = Request::new(raw("POST /start HTTP/1.1\r\nContent-Length: 4\r\n")).unwrap();
    assert_eq!(req.header_offset, HEADER_CAPACITY);
    assert_eq!(HEADER_CAPACITY, 16);
}

#[test]
fn malformed_request_line_carries_a_cause() {
    let e = Request::new(raw("\u{1}\u{2} nonsense\r\n\r\n")).unwrap_err();
    assert!(matches!(e, ProtocolError::Malformed(_)));
}

#[test]
fn too_many_headers_is_a_distinct_cause() {
    let mut text = String::from("POST /log HTTP/1.1\r\n");
    for i in 0..17 {
        text.push_str(&format!("X-Pad-{i}: x\r\n"));
    }
    text.push_str("\r\n");
    let e = Request::new(raw(&text)).unwrap_err();
    assert_eq!(e, ProtocolError::Malformed(ParseCause::TooManyHeaders));
}

#[test]
fn content_length_name_is_case_insensitive() {
    let req = Request::new(raw("POST /log HTTP/1.1\r\nCONTENT-LENGTH: 2\r\n\r\nhi")).unwrap();
    assert_eq!(req.body().unwrap(), b"hi".to_vec());
}

#[test]
fn content_length_allows_a_leading_plus() {
    let req = Request::new(raw("POST /log HTTP/1.1\r\nContent-Length: +2\r\n\r\nhi")).unwrap();
    assert_eq!(req.body().unwrap(), b"hi".to_vec());
}

#[test]
fn missing_content_length_is_reported() {
    let req = Request::new(raw("POST /log HTTP/1.1\r\nHost: here\r\n\r\nhi")).unwrap();
    assert_eq!(req.body(), Err(BodyError::MissingLength));
}

#[test]
fn non_numeric_content_length_is_reported() {
    let req = Request::new(raw("POST /log HTTP/1.1\r\nContent-Length: two\r\n\r\nhi")).unwrap();
    assert_eq!(req.body(), Err(BodyError::InvalidNumber));
    let req = Request::new(raw("POST /log HTTP/1.1\r\nContent-Length: 1 2\r\n\r\nhi")).unwrap();
    assert_eq!(req.body(), Err(BodyError::InvalidNumber));
    let req =
        Request::new(raw("POST /log HTTP/1.1\r\nContent-Length: 99999999999999999999\r\n\r\nhi"))
            .unwrap();
    assert_eq!(req.body(), Err(BodyError::InvalidNumber));
}

#[test]
fn non_utf8_content_length_is_reported() {
    let mut req = Request::new(raw("POST /log HTTP/1.1\r\nContent-Length: 2\r\n\r\nhi")).unwrap();
    req.headers[0].1 = vec![0xff, 0xfe];
    assert_eq!(req.body(), Err(BodyError::InvalidEncoding));
}

#[test]
fn short_buffer_is_reported_not_sliced() {
    let req = Request::new(raw("POST /log HTTP/1.1\r\nContent-Length: 50\r\n\r\nhi")).unwrap();
    assert_eq!(req.body(), Err(BodyError::OutOfRange));
}
