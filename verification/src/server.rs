//! The request router and the edit coordinator.
//!
//! Three paths are served under POST: `/start` turns decoding on, clears the
//! cut log and logs the first frame; `/log` pairs a newly received cut point
//! with the previous one into an edit; `/stop` does the same and turns
//! decoding off.  Everything else is a not-found response.
//!
//! The receive on the frame channel and the write to the edit-decision-list
//! file happen outside the library: the route takes the receive's outcome as
//! an event, and hands any completed edit back to the caller to persist.

use vstd::prelude::*;
use vstd::string::StringExecFns;

use crate::codec::{Response, StatusLine};
use crate::cut_log::CutRecordView;
use crate::cut_log::CutLog;
use crate::edl::{edit_summary_text, AVChannels, Edit};
use crate::ltc_decode::{dec_chars, format_dec_chars, timecode_text, DecodeErr, FrameEvent, Timecode};
use crate::request::Request;

verus! {

/// The server: the local address it will listen on.
pub struct Server {
    pub port: String,
}

impl Server {
    /// A server bound to the loopback interface at the given port.
    pub fn new(port: u16) -> (s: Server)
        ensures
            s.port@ =~= "127.0.0.1:"@ + dec_chars(port as nat),
    {
        proof {
            reveal_strlit("127.0.0.1:");
        }
        let mut p = String::from_str("127.0.0.1:");
        p.append(format_dec_chars(port).as_str());
        Server { port: p }
    }
}

/// The state shared across requests: whether decoding is on, and the cut
/// log.  The decode handle and the edit writer themselves live outside the
/// library; this is their session-visible state.
#[derive(Debug)]
pub struct Context {
    pub decode_on: bool,
    pub cut_log: CutLog,
}

/// Every logged timecode renders in the two-digit-per-field form.
pub open spec fn log_wf(log: Seq<CutRecordView>) -> bool {
    forall|i: int| 0 <= i < log.len() ==> #[trigger] log[i].timecode.wf()
}

impl Context {
    pub open spec fn wf(&self) -> bool {
        log_wf(self.cut_log@)
    }

    pub fn new() -> (c: Context)
        ensures
            !c.decode_on,
            c.cut_log@ =~= Seq::<CutRecordView>::empty(),
            c.wf(),
    {
        let c = Context { decode_on: false, cut_log: CutLog::new() };
        c
    }
}

/// The payload of an edit request, decoded from the request body.
#[derive(Debug)]
pub struct EditRequestData {
    pub edit_type: String,
    pub source_tape: String,
    pub av_channel: AVChannels,
}

/// The mathematical value of an edit request payload.
pub struct EditRequestDataView {
    pub edit_type: Seq<char>,
    pub source_tape: Seq<char>,
    pub av_channel: AVChannels,
}

impl View for EditRequestData {
    type V = EditRequestDataView;

    open spec fn view(&self) -> EditRequestDataView {
        EditRequestDataView {
            edit_type: self.edit_type@,
            source_tape: self.source_tape@,
            av_channel: self.av_channel,
        }
    }
}

/// The cut record a payload logs for a received timecode.
pub open spec fn record_of(tc: Timecode, d: EditRequestDataView) -> CutRecordView {
    CutRecordView {
        timecode: tc,
        edit_type: d.edit_type,
        source_tape: d.source_tape,
        av_channel: d.av_channel,
    }
}

/// The routing decision for one request.
#[derive(Clone, Copy, PartialEq, Eq, Structural, Debug)]
pub enum Command {
    Start,
    Stop,
    Log,
    NotFound,
}

/// Only POST requests to the three registered paths are commands; anything
/// else is a routing miss.
pub open spec fn command_of(method: Option<Seq<char>>, path: Option<Seq<char>>) -> Command {
    if method == Some("POST"@) {
        if path == Some("/start"@) {
            Command::Start
        } else if path == Some("/stop"@) {
            Command::Stop
        } else if path == Some("/log"@) {
            Command::Log
        } else {
            Command::NotFound
        }
    } else {
        Command::NotFound
    }
}

/// How a command obtains its frame: `/start` is the one moment the operator
/// wants to wait for the first frame, so it blocks; `/log` and `/stop` must
/// never stall the listener, so they poll once; a routing miss needs no
/// frame at all.
#[derive(Clone, Copy, PartialEq, Eq, Structural, Debug)]
pub enum ReceivePolicy {
    /// Block until a frame arrives.
    Blocking,
    /// Poll once; a missing frame is a normal condition.
    NonBlocking,
    /// No frame is needed.
    NoReceive,
}

pub open spec fn receive_policy_of(c: Command) -> ReceivePolicy {
    match c {
        Command::Start => ReceivePolicy::Blocking,
        Command::Stop => ReceivePolicy::NonBlocking,
        Command::Log => ReceivePolicy::NonBlocking,
        Command::NotFound => ReceivePolicy::NoReceive,
    }
}

impl Command {
    /// The per-route receive policy the connection loop must follow.
    pub fn receive_policy(&self) -> (p: ReceivePolicy)
        ensures
            p == receive_policy_of(*self),
    {
        match self {
            Command::Start => ReceivePolicy::Blocking,
            Command::Stop => ReceivePolicy::NonBlocking,
            Command::Log => ReceivePolicy::NonBlocking,
            Command::NotFound => ReceivePolicy::NoReceive,
        }
    }
}

/// A request failure that surfaces as the 500-equivalent response.
#[derive(Clone, Copy, PartialEq, Eq, Structural, Debug)]
pub enum ServerError {
    /// The decode handle failed to deliver a frame.
    DecodeFailed,
    /// The cut log held no prior cut point to pair with.
    EmptyLog,
}

/// What routing produced: a response to send, possibly with a completed edit
/// that must first be persisted to the edit decision list.
#[derive(Debug)]
pub enum RouteOutcome {
    Respond(Response),
    Persist(Edit, Response),
}

pub open spec fn frame_unavailable_text() -> Seq<char> {
    "Unable to get timecode. Make sure source is streaming and decoding has started."@
}

pub open spec fn server_err_text() -> Seq<char> {
    "Failed to parse request"@
}

pub open spec fn not_found_text() -> Seq<char> {
    "Command not found"@
}

/// The friendly response when no frame is available: a success, never an
/// error.
pub fn frame_unavailable() -> (r: Response)
    ensures
        r@.status_line == StatusLine::Success,
        r@.content =~= frame_unavailable_text(),
{
    Response::success(
        String::from_str(
            "Unable to get timecode. Make sure source is streaming and decoding has started.",
        ),
    )
}

/// The 500-equivalent response for a request that could not be processed.
pub fn server_err() -> (r: Response)
    ensures
        r@.status_line == StatusLine::ServerError,
        r@.content =~= server_err_text(),
{
    Response::new(StatusLine::ServerError, String::from_str("Failed to parse request"))
}

/// The 404-equivalent response for an unregistered path or method.
pub fn not_found() -> (r: Response)
    ensures
        r@.status_line == StatusLine::NotFound,
        r@.content =~= not_found_text(),
{
    Response::new(StatusLine::NotFound, String::from_str("Command not found"))
}

/// What pairing one receive outcome against the log must yield: the benign
/// friendly response when no frame is there; a failure when the handle
/// failed or no prior record exists; otherwise exactly one edit spanning the
/// two most recently logged cut points, with the oldest record removed and
/// the new one appended (net length unchanged).
pub open spec fn pairing_post(
    dv: EditRequestDataView,
    log0: Seq<CutRecordView>,
    frame: FrameEvent,
    log1: Seq<CutRecordView>,
    r: Result<RouteOutcome, ServerError>,
    prefix: Seq<char>,
) -> bool {
    match frame {
        FrameEvent::NoFrameYet => log1 =~= log0 && (r matches Ok(RouteOutcome::Respond(resp))
            && resp@.status_line == StatusLine::Success && resp@.content =~= frame_unavailable_text()),
        FrameEvent::Failed => log1 =~= log0 && r == Err::<RouteOutcome, ServerError>(
            ServerError::DecodeFailed,
        ),
        FrameEvent::Frame(tc) => {
            let pushed = log0.push(record_of(tc, dv));
            log1 =~= pushed.drop_first() && if log0.len() == 0 {
                r == Err::<RouteOutcome, ServerError>(ServerError::EmptyLog)
            } else {
                r matches Ok(RouteOutcome::Persist(e, resp)) && e@.previous == pushed[0]
                    && e@.current == pushed.last() && resp@.status_line == StatusLine::Success
                    && resp@.content =~= prefix + edit_summary_text(e@)
            }
        },
    }
}

impl EditRequestData {
    /// Logs the first frame after decoding starts: appends one cut record
    /// and reports the received timecode.  The event comes from a blocking
    /// receive, so a missing frame is a failure, not a benign condition.
    pub fn wait_for_first_frame(&self, ctx: &mut Context, frame: &FrameEvent) -> (r: Result<
        Response,
        ServerError,
    >)
        requires
            old(ctx).wf(),
            *frame matches FrameEvent::Frame(tc) ==> tc.wf(),
        ensures
            final(ctx).wf(),
            final(ctx).decode_on == old(ctx).decode_on,
            match *frame {
                FrameEvent::Frame(tc) => final(ctx).cut_log@ =~= old(ctx).cut_log@.push(
                    record_of(tc, self@),
                ) && (r matches Ok(resp) && resp@.status_line == StatusLine::Success
                    && resp@.content =~= "timecode logged: "@ + timecode_text(tc)),
                _ => final(ctx).cut_log@ =~= old(ctx).cut_log@ && r == Err::<Response, ServerError>(
                    ServerError::DecodeFailed,
                ),
            },
    {
        match frame {
            FrameEvent::Frame(tc) => {
                ctx.cut_log.push(*tc, &self.edit_type, &self.source_tape, &self.av_channel);
                let mut c = String::from_str("timecode logged: ");
                c.append(tc.render().as_str());
                Ok(Response::success(c))
            },
            _ => Err(ServerError::DecodeFailed),
        }
    }

    /// Pairs a newly received cut point with the previous one: pushes the
    /// new record, pops the oldest, peeks the newest, and builds the edit
    /// spanning the two.  Fails with `NoRecord` when the log held no prior
    /// record, and passes the receive's own error kinds through.
    pub fn parse_edit_from_log(&self, ctx: &mut Context, frame: &FrameEvent) -> (r: Result<
        Edit,
        DecodeErr,
    >)
        ensures
            final(ctx).decode_on == old(ctx).decode_on,
            match *frame {
                FrameEvent::NoFrameYet => final(ctx).cut_log@ =~= old(ctx).cut_log@ && r == Err::<
                    Edit,
                    DecodeErr,
                >(DecodeErr::NoVal),
                FrameEvent::Failed => final(ctx).cut_log@ =~= old(ctx).cut_log@ && r == Err::<
                    Edit,
                    DecodeErr,
                >(DecodeErr::Failed),
                FrameEvent::Frame(tc) => {
                    let pushed = old(ctx).cut_log@.push(record_of(tc, self@));
                    final(ctx).cut_log@ =~= pushed.drop_first() && if old(ctx).cut_log@.len()
                        == 0 {
                        r == Err::<Edit, DecodeErr>(DecodeErr::NoRecord)
                    } else {
                        r matches Ok(e) && e@.previous == pushed[0] && e@.current == pushed.last()
                    }
                },
            },
    {
        let tc = match frame {
            FrameEvent::Frame(tc) => *tc,
            FrameEvent::NoFrameYet => {
                return Err(DecodeErr::NoVal);
            },
            FrameEvent::Failed => {
                return Err(DecodeErr::Failed);
            },
        };
        ctx.cut_log.push(tc, &self.edit_type, &self.source_tape, &self.av_channel);
        let prev_record = match ctx.cut_log.pop() {
            Some(rec) => rec,
            None => {
                return Err(DecodeErr::NoRecord);
            },
        };
        match ctx.cut_log.front() {
            Some(curr_record) => Ok(Edit::from_cuts(&prev_record, curr_record)),
            None => Err(DecodeErr::NoRecord),
        }
    }

    /// Logs a cut point from a non-blocking receive and pairs it into an
    /// edit.  The one absorbed condition is "no frame yet", which yields the
    /// friendly response; every other failure propagates.
    pub fn try_log_edit(&self, ctx: &mut Context, frame: &FrameEvent) -> (r: Result<
        RouteOutcome,
        ServerError,
    >)
        requires
            old(ctx).wf(),
            *frame matches FrameEvent::Frame(tc) ==> tc.wf(),
        ensures
            final(ctx).wf(),
            final(ctx).decode_on == old(ctx).decode_on,
            pairing_post(self@, old(ctx).cut_log@, *frame, final(ctx).cut_log@, r, Seq::empty()),
    {
        match self.parse_edit_from_log(ctx, frame) {
            Ok(edit) => {
                proof {
                    match *frame {
                        FrameEvent::Frame(tc) => {
                            let log0 = old(ctx).cut_log@;
                            let pushed = log0.push(record_of(tc, self@));
                            assert(log0.len() > 0);
                            assert(pushed[0] == log0[0] && log0[0].timecode.wf());
                            assert(pushed.last().timecode.wf());
                            assert(edit.wf());
                            assert forall|i: int|
                                0 <= i < ctx.cut_log@.len() implies #[trigger] ctx.cut_log@[i].timecode.wf() by {
                                assert(ctx.cut_log@[i] == pushed[i + 1]);
                                if i + 1 < pushed.len() - 1 {
                                    assert(pushed[i + 1] == log0[i + 1]);
                                }
                            }
                        },
                        _ => {
                            assert(false);
                        },
                    }
                }
                let resp = Response::success(edit.summary());
                proof {
                    assert(Seq::<char>::empty() + edit_summary_text(edit@) =~= edit_summary_text(
                        edit@,
                    ));
                }
                Ok(RouteOutcome::Persist(edit, resp))
            },
            Err(DecodeErr::NoVal) => Ok(RouteOutcome::Respond(frame_unavailable())),
            Err(DecodeErr::NoRecord) => Err(ServerError::EmptyLog),
            Err(DecodeErr::Failed) => Err(ServerError::DecodeFailed),
        }
    }
}

impl Request {
    /// The routing decision for this request's method and path.
    pub open spec fn method_view(&self) -> Option<Seq<char>> {
        match self.method {
            Some(m) => Some(m@),
            None => None,
        }
    }

    pub open spec fn path_view(&self) -> Option<Seq<char>> {
        match self.path {
            Some(p) => Some(p@),
            None => None,
        }
    }

    pub open spec fn spec_command(&self) -> Command {
        command_of(self.method_view(), self.path_view())
    }

    /// Decides which command, if any, this request addresses.
    pub fn command(&self) -> (c: Command)
        ensures
            c == self.spec_command(),
    {
        let m = match &self.method {
            Some(m) => m,
            None => {
                return Command::NotFound;
            },
        };
        if !(*m == String::from_str("POST")) {
            return Command::NotFound;
        }
        let p = match &self.path {
            Some(p) => p,
            None => {
                return Command::NotFound;
            },
        };
        if *p == String::from_str("/start") {
            Command::Start
        } else if *p == String::from_str("/stop") {
            Command::Stop
        } else if *p == String::from_str("/log") {
            Command::Log
        } else {
            Command::NotFound
        }
    }

    /// Routes the request onto the session context.  `data` is the decoded
    /// body payload and `frame` the outcome of the frame receive this
    /// command calls for (blocking for `/start`, non-blocking for `/stop`
    /// and `/log`); a routing miss needs neither.
    pub fn route(
        &self,
        data: Option<&EditRequestData>,
        frame: Option<&FrameEvent>,
        ctx: &mut Context,
    ) -> (r: Result<RouteOutcome, ServerError>)
        requires
            old(ctx).wf(),
            self.spec_command() != Command::NotFound ==> data is Some && frame is Some,
            frame matches Some(f) ==> (*f matches FrameEvent::Frame(tc) ==> tc.wf()),
        ensures
            final(ctx).wf(),
            match self.spec_command() {
                Command::NotFound => final(ctx).decode_on == old(ctx).decode_on
                    && final(ctx).cut_log@ =~= old(ctx).cut_log@
                    && (r matches Ok(RouteOutcome::Respond(resp))
                    && resp@.status_line == StatusLine::NotFound && resp@.content
                    =~= not_found_text()),
                Command::Start => final(ctx).decode_on && (frame matches Some(f) ==> match *f {
                    FrameEvent::Frame(tc) => final(ctx).cut_log@ =~= seq![
                        record_of(tc, data->Some_0@),
                    ] && (r matches Ok(RouteOutcome::Respond(resp)) && resp@.status_line
                        == StatusLine::Success && resp@.content =~= "Started decoding. "@ + (
                    "timecode logged: "@ + timecode_text(tc))),
                    _ => final(ctx).cut_log@ =~= Seq::<CutRecordView>::empty() && r == Err::<
                        RouteOutcome,
                        ServerError,
                    >(ServerError::DecodeFailed),
                }),
                Command::Stop => !final(ctx).decode_on && (frame matches Some(f) ==> pairing_post(
                    data->Some_0@,
                    old(ctx).cut_log@,
                    *f,
                    final(ctx).cut_log@,
                    r,
                    "Stopped decoding with "@,
                )),
                Command::Log => final(ctx).decode_on == old(ctx).decode_on
                    && (frame matches Some(f) ==> pairing_post(
                    data->Some_0@,
                    old(ctx).cut_log@,
                    *f,
                    final(ctx).cut_log@,
                    r,
                    Seq::empty(),
                )),
            },
    {
        match self.command() {
            Command::Start => {
                let payload = data.unwrap();
                let f = frame.unwrap();
                ctx.decode_on = true;
                ctx.cut_log.clear();
                match payload.wait_for_first_frame(ctx, f) {
                    Ok(inner) => {
                        let mut c = String::from_str("Started decoding. ");
                        c.append(inner.content.as_str());
                        Ok(RouteOutcome::Respond(Response::success(c)))
                    },
                    Err(e) => Err(e),
                }
            },
            Command::Stop => {
                let payload = data.unwrap();
                let f = frame.unwrap();
                ctx.decode_on = false;
                match payload.try_log_edit(ctx, f) {
                    Ok(RouteOutcome::Persist(edit, resp)) => {
                        let mut c = String::from_str("Stopped decoding with ");
                        c.append(resp.content.as_str());
                        proof {
                            assert(Seq::<char>::empty() + edit_summary_text(edit@)
                                =~= edit_summary_text(edit@));
                        }
                        Ok(RouteOutcome::Persist(edit, Response::success(c)))
                    },
                    other => other,
                }
            },
            Command::Log => {
                let payload = data.unwrap();
                let f = frame.unwrap();
                payload.try_log_edit(ctx, f)
            },
            Command::NotFound => Ok(RouteOutcome::Respond(not_found())),
        }
    }
}


/// The queue invariant of a successful non-blocking log: one record is
/// appended and the oldest removed, so the log's length is unchanged, and
/// the edit spans the previously oldest record and the newly logged one.
pub proof fn lemma_log_net_zero(
    dv: EditRequestDataView,
    log0: Seq<CutRecordView>,
    tc: Timecode,
    log1: Seq<CutRecordView>,
    r: Result<RouteOutcome, ServerError>,
    prefix: Seq<char>,
)
    requires
        pairing_post(dv, log0, FrameEvent::Frame(tc), log1, r, prefix),
        log0.len() > 0,
    ensures
        log1.len() == log0.len(),
        r matches Ok(RouteOutcome::Persist(e, resp)) && e@.previous == log0[0] && e@.current
            == record_of(tc, dv),
{
    let pushed = log0.push(record_of(tc, dv));
    assert(pushed[0] == log0[0]);
    assert(pushed.last() == record_of(tc, dv));
}

} // verus!
