use edl_server::codec::{
    format_dec, parse_response, quote_string_bytes, unquote_string_bytes, Response, StatusLine,
};
use edl_server::edl::AVChannels;
use edl_server::ltc_decode::Timecode;
use edl_server::cut_log::CutRecord;
use edl_server::edl::Edit;

#[test]
fn wire_form_is_exact() {
    let r = Response::new(StatusLine::Success, String::from("ok"));
    let w = r.to_wire();
    let expected =
        "HTTP/1.1 200 OK\r\nContent-Type: application/json\r\nContent-Length: 4\r\n\r\n\"ok\"";
    assert_eq!(w, expected.as_bytes().to_vec());
}

#[test]
fn quoting_escapes_quotes_backslashes_and_controls() {
    let q = quote_string_bytes("a\"b\\c\n".as_bytes());
    assert_eq!(q, "\"a\\\"b\\\\c\\u000a\"".as_bytes().to_vec());
}

#[test]
fn unquoting_rejects_raw_quotes_and_bad_escapes() {
    assert!(unquote_string_bytes("\"a\"b\"".as_bytes()).is_none());
    assert!(unquote_string_bytes("\"a\\x\"".as_bytes()).is_none());
    assert!(unquote_string_bytes("abc".as_bytes()).is_none());
}

#[test]
fn round_trip_recovers_arbitrary_content() {
    let texts = [
        "",
        "plain",
        "he said \"hi\"",
        "back\\slash and \"quote\"",
        "line\r\nbreaks\tand\u{1}controls",
        "beyond ascii: tapé déck",
    ];
    for t in texts {
        let r = Response::new(StatusLine::Success, String::from(t));
        let w = r.to_wire();
        let (status, content) = parse_response(w.as_slice()).expect("wire must parse back");
        assert_eq!(status, StatusLine::Success);
        assert_eq!(String::from_utf8(content).unwrap(), t);
    }
}

#[test]
fn round_trip_keeps_each_status_line() {
    for status in [StatusLine::Success, StatusLine::NotFound, StatusLine::ServerError] {
        let r = Response::new(status, String::from("body"));
        let w = r.to_wire();
        let (back, _) = parse_response(w.as_slice()).expect("wire must parse back");
        assert_eq!(back, status);
    }
}

#[test]
fn content_length_counts_quoted_bytes() {
    // content "a\"b" quotes to "a\\"b" of 6 wire bytes, quotes included
    let r = Response::new(StatusLine::Success, String::from("a\"b"));
    let w = r.to_wire();
    let text = String::from_utf8(w).unwrap();
    assert!(text.contains("Content-Length: 6\r\n"));
}

#[test]
fn decimal_rendering_is_exact() {
    assert_eq!(format_dec(0), b"0".to_vec());
    assert_eq!(format_dec(7), b"7".to_vec());
    assert_eq!(format_dec(1234), b"1234".to_vec());
    assert_eq!(format_dec(1000), b"1000".to_vec());
}

#[test]
fn timecode_renders_zero_padded() {
    assert_eq!(Timecode::new(1, 2, 3, 4).render(), "01:02:03:04");
    assert_eq!(Timecode::new(0, 0, 10, 0).render(), "00:00:10:00");
    assert_eq!(Timecode::new(23, 59, 59, 29).render(), "23:59:59:29");
}

#[test]
fn edit_summary_spans_both_timecodes() {
    let a = CutRecord::new(
        Timecode::new(0, 0, 10, 0),
        &String::from("CUT"),
        &String::from("A001"),
        &AVChannels::Both,
    );
    let b = CutRecord::new(
        Timecode::new(0, 0, 20, 0),
        &String::from("CUT"),
        &String::from("A001"),
        &AVChannels::Both,
    );
    let e = Edit::from_cuts(&a, &b);
    assert_eq!(e.summary(), "edit logged from 00:00:10:00 to 00:00:20:00");
}
