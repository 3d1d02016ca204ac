use edl_server::codec::{parse_response, StatusLine};
use edl_server::edl::AVChannels;
use edl_server::ltc_decode::{FrameEvent, Timecode};
use edl_server::request::Request;
use edl_server::server::{Command, Context, EditRequestData, ReceivePolicy, RouteOutcome, Server, ServerError};
use edl_server::server::{frame_unavailable, not_found, server_err};

fn payload() -> EditRequestData {
    EditRequestData {
        edit_type: String::from("CUT"),
        source_tape: String::from("A001"),
        av_channel: AVChannels::Both,
    }
}

fn post(path: &str) -> Request {
    Request {
        method: Some(String::from("POST")),
        path: Some(String::from(path)),
        headers: Vec::new(),
        header_offset: 0,
        buffer: Vec::new(),
    }
}

#[test]
fn start_logs_first_frame() {
    let mut ctx = Context::new();
    let data = payload();
    let req = post("/start");
    assert_eq!(req.command(), Command::Start);
    let ev = FrameEvent::Frame(Timecode::new(0, 0, 10, 0));
    let r = req.route(Some(&data), Some(&ev), &mut ctx);
    assert!(ctx.decode_on);
    assert_eq!(ctx.cut_log.len(), 1);
    match r {
        Ok(RouteOutcome::Respond(resp)) => {
            assert_eq!(resp.status_line, StatusLine::Success);
            assert!(resp.content.contains("timecode logged"));
            assert!(resp.content.contains("00:00:10:00"));
            assert!(resp.content.starts_with("Started decoding. "));
        }
        _ => panic!("expected a plain response"),
    }
}

#[test]
fn start_clears_previous_log() {
    let mut ctx = Context::new();
    let data = payload();
    let start = post("/start");
    let ev1 = FrameEvent::Frame(Timecode::new(0, 0, 10, 0));
    start.route(Some(&data), Some(&ev1), &mut ctx).unwrap();
    let log = post("/log");
    let ev2 = FrameEvent::Frame(Timecode::new(0, 0, 20, 0));
    log.route(Some(&data), Some(&ev2), &mut ctx).unwrap();
    assert_eq!(ctx.cut_log.len(), 1);
    // a second /start empties the log before logging the new first frame
    let ev3 = FrameEvent::Frame(Timecode::new(1, 0, 0, 0));
    start.route(Some(&data), Some(&ev3), &mut ctx).unwrap();
    assert_eq!(ctx.cut_log.len(), 1);
    assert!(ctx.decode_on);
}

#[test]
fn log_pairs_the_two_most_recent_cuts() {
    let mut ctx = Context::new();
    let data = payload();
    let start = post("/start");
    let ev1 = FrameEvent::Frame(Timecode::new(0, 0, 10, 0));
    start.route(Some(&data), Some(&ev1), &mut ctx).unwrap();
    let log = post("/log");
    let ev2 = FrameEvent::Frame(Timecode::new(0, 0, 20, 0));
    let r = log.route(Some(&data), Some(&ev2), &mut ctx);
    match r {
        Ok(RouteOutcome::Persist(edit, resp)) => {
            assert_eq!(resp.status_line, StatusLine::Success);
            assert!(resp.content.contains("00:00:10:00"));
            assert!(resp.content.contains("00:00:20:00"));
            assert_eq!(resp.content, "edit logged from 00:00:10:00 to 00:00:20:00");
            assert_eq!(edit.previous.timecode, Timecode::new(0, 0, 10, 0));
            assert_eq!(edit.current.timecode, Timecode::new(0, 0, 20, 0));
        }
        _ => panic!("expected an edit to persist"),
    }
    // net zero: the log is back to one record
    assert_eq!(ctx.cut_log.len(), 1);
}

#[test]
fn log_without_frame_is_friendly() {
    let mut ctx = Context::new();
    let data = payload();
    let req = post("/log");
    let r = req.route(Some(&data), Some(&FrameEvent::NoFrameYet), &mut ctx);
    match r {
        Ok(RouteOutcome::Respond(resp)) => {
            assert_eq!(resp.status_line, StatusLine::Success);
            assert_eq!(
                resp.content,
                "Unable to get timecode. Make sure source is streaming and decoding has started."
            );
        }
        _ => panic!("expected the friendly response"),
    }
}

#[test]
fn stop_turns_decode_off_even_without_frame() {
    let mut ctx = Context::new();
    ctx.decode_on = true;
    let data = payload();
    let req = post("/stop");
    let r = req.route(Some(&data), Some(&FrameEvent::NoFrameYet), &mut ctx);
    assert!(!ctx.decode_on);
    match r {
        Ok(RouteOutcome::Respond(resp)) => {
            assert_eq!(resp.status_line, StatusLine::Success);
            assert_eq!(
                resp.content,
                "Unable to get timecode. Make sure source is streaming and decoding has started."
            );
        }
        _ => panic!("expected the friendly response"),
    }
}

#[test]
fn stop_reports_the_trailing_edit() {
    let mut ctx = Context::new();
    let data = payload();
    let start = post("/start");
    let ev1 = FrameEvent::Frame(Timecode::new(0, 0, 10, 0));
    start.route(Some(&data), Some(&ev1), &mut ctx).unwrap();
    let stop = post("/stop");
    let ev2 = FrameEvent::Frame(Timecode::new(0, 0, 20, 0));
    let r = stop.route(Some(&data), Some(&ev2), &mut ctx);
    assert!(!ctx.decode_on);
    match r {
        Ok(RouteOutcome::Persist(_, resp)) => {
            assert_eq!(
                resp.content,
                "Stopped decoding with edit logged from 00:00:10:00 to 00:00:20:00"
            );
        }
        _ => panic!("expected an edit to persist"),
    }
}

#[test]
fn unknown_path_is_not_found() {
    let mut ctx = Context::new();
    let req = post("/delete");
    assert_eq!(req.command(), Command::NotFound);
    let r = req.route(None, None, &mut ctx);
    match r {
        Ok(RouteOutcome::Respond(resp)) => {
            assert_eq!(resp.status_line, StatusLine::NotFound);
            assert_eq!(resp.content, "Command not found");
        }
        _ => panic!("expected not found"),
    }
}

#[test]
fn non_post_method_is_not_found() {
    let mut ctx = Context::new();
    let mut req = post("/start");
    req.method = Some(String::from("GET"));
    assert_eq!(req.command(), Command::NotFound);
    let r = req.route(None, None, &mut ctx);
    match r {
        Ok(RouteOutcome::Respond(resp)) => {
            assert_eq!(resp.status_line, StatusLine::NotFound);
            assert_eq!(resp.content, "Command not found");
        }
        _ => panic!("expected not found"),
    }
    assert!(!ctx.decode_on);
}

#[test]
fn decode_failure_propagates() {
    let mut ctx = Context::new();
    let data = payload();
    let req = post("/log");
    let r = req.route(Some(&data), Some(&FrameEvent::Failed), &mut ctx);
    assert!(matches!(r, Err(ServerError::DecodeFailed)));
}

#[test]
fn log_on_empty_log_is_a_consistency_failure() {
    let mut ctx = Context::new();
    let data = payload();
    let req = post("/log");
    let ev = FrameEvent::Frame(Timecode::new(0, 0, 30, 0));
    let r = req.route(Some(&data), Some(&ev), &mut ctx);
    assert!(matches!(r, Err(ServerError::EmptyLog)));
    // the freshly pushed record was consumed by the failed pairing
    assert_eq!(ctx.cut_log.len(), 0);
}

#[test]
fn fixed_responses_are_verbatim() {
    let fu = frame_unavailable();
    assert_eq!(fu.status_line, StatusLine::Success);
    assert_eq!(
        fu.content,
        "Unable to get timecode. Make sure source is streaming and decoding has started."
    );
    let nf = not_found();
    assert_eq!(nf.status_line, StatusLine::NotFound);
    assert_eq!(nf.content, "Command not found");
    let se = server_err();
    assert_eq!(se.status_line, StatusLine::ServerError);
    assert_eq!(se.content, "Failed to parse request");
}

#[test]
fn server_binds_loopback_address() {
    let s = Server::new(8080);
    assert_eq!(s.port, "127.0.0.1:8080");
    let s = Server::new(0);
    assert_eq!(s.port, "127.0.0.1:0");
}

#[test]
fn full_request_cycle_over_wire_bytes() {
    let body = "{\"edit_type\":\"CUT\",\"source_tape\":\"A001\",\"av_channel\":\"BOTH\"}";
    let text = format!(
        "POST /start HTTP/1.1\r\nContent-Length: {}\r\n\r\n{}",
        body.len(),
        body
    );
    let req = Request::new(text.as_bytes().to_vec()).expect("head must parse");
    assert_eq!(req.body().unwrap(), body.as_bytes().to_vec());
    assert_eq!(req.command(), Command::Start);

    let mut ctx = Context::new();
    let data = payload();
    let ev = FrameEvent::Frame(Timecode::new(0, 0, 10, 0));
    let resp = match req.route(Some(&data), Some(&ev), &mut ctx) {
        Ok(RouteOutcome::Respond(resp)) => resp,
        _ => panic!("expected a plain response"),
    };
    let wire = resp.to_wire();
    let (status, content) = parse_response(wire.as_slice()).expect("wire must parse back");
    assert_eq!(status, StatusLine::Success);
    assert_eq!(
        String::from_utf8(content).unwrap(),
        "Started decoding. timecode logged: 00:00:10:00"
    );
}

#[test]
fn receive_policy_follows_the_route() {
    assert_eq!(Command::Start.receive_policy(), ReceivePolicy::Blocking);
    assert_eq!(Command::Stop.receive_policy(), ReceivePolicy::NonBlocking);
    assert_eq!(Command::Log.receive_policy(), ReceivePolicy::NonBlocking);
    assert_eq!(Command::NotFound.receive_policy(), ReceivePolicy::NoReceive);
}
