//! Model of the timecode-decoding backend's frame stream.
//!
//! The decoding itself runs outside the library; what the router consumes is
//! one event per receive attempt: a frame carrying a timecode, the benign
//! "no frame yet" condition of a non-blocking receive, or a failure of the
//! decode handle.

use vstd::prelude::*;
use vstd::string::StringExecFns;

verus! {

/// One decoded linear-timecode frame, reduced to the four numeric fields a
/// frame carries: hours, minutes, seconds and the frame number.
#[derive(Clone, Copy, PartialEq, Eq, Structural, Debug)]
pub struct Timecode {
    pub hours: u8,
    pub minutes: u8,
    pub seconds: u8,
    pub frames: u8,
}

impl Timecode {
    /// Each field fits in the two decimal digits of the "HH:MM:SS:FF" form.
    pub open spec fn wf(self) -> bool {
        self.hours < 100 && self.minutes < 100 && self.seconds < 100 && self.frames < 100
    }

    pub fn new(hours: u8, minutes: u8, seconds: u8, frames: u8) -> (tc: Timecode)
        requires
            hours < 100,
            minutes < 100,
            seconds < 100,
            frames < 100,
        ensures
            tc == (Timecode { hours, minutes, seconds, frames }),
            tc.wf(),
    {
        Timecode { hours, minutes, seconds, frames }
    }

    /// Renders the timecode in its canonical "HH:MM:SS:FF" form.
    pub fn render(&self) -> (s: String)
        requires
            self.wf(),
        ensures
            s@ =~= timecode_text(*self),
    {
        proof {
            reveal_strlit(":");
        }
        let mut s = format_two_digits(self.hours);
        s.append(":");
        s.append(format_two_digits(self.minutes).as_str());
        s.append(":");
        s.append(format_two_digits(self.seconds).as_str());
        s.append(":");
        s.append(format_two_digits(self.frames).as_str());
        s
    }
}

/// The outcome of one receive attempt on the frame channel of the decode
/// handle.  A blocking receive never reports `NoFrameYet`; the non-blocking
/// receive reports it whenever the producer has not delivered a frame.
#[derive(Clone, Copy, PartialEq, Eq, Structural, Debug)]
pub enum FrameEvent {
    Frame(Timecode),
    NoFrameYet,
    Failed,
}

/// The error taxonomy of the edit-coordination step.  `NoVal` is the one
/// deliberately absorbed kind: a frame was not available, which is a normal
/// operating condition, not a failure.
#[derive(Clone, Copy, PartialEq, Eq, Structural, Debug)]
pub enum DecodeErr {
    /// No frame is currently available on the channel.
    NoVal,
    /// The cut log held no prior record to pair the new cut point with.
    NoRecord,
    /// The decode handle itself failed.
    Failed,
}

/// The character for one decimal digit.
pub open spec fn digit_char(d: nat) -> char
    recommends
        d < 10,
{
    if d == 0 {
        '0'
    } else if d == 1 {
        '1'
    } else if d == 2 {
        '2'
    } else if d == 3 {
        '3'
    } else if d == 4 {
        '4'
    } else if d == 5 {
        '5'
    } else if d == 6 {
        '6'
    } else if d == 7 {
        '7'
    } else if d == 8 {
        '8'
    } else {
        '9'
    }
}

/// Two decimal digits, zero padded.
pub open spec fn two_digits(n: nat) -> Seq<char>
    recommends
        n < 100,
{
    seq![digit_char(n / 10), digit_char(n % 10)]
}

/// The canonical "HH:MM:SS:FF" rendering of a timecode.
pub open spec fn timecode_text(tc: Timecode) -> Seq<char> {
    two_digits(tc.hours as nat) + seq![':'] + two_digits(tc.minutes as nat) + seq![':']
        + two_digits(tc.seconds as nat) + seq![':'] + two_digits(tc.frames as nat)
}

pub(crate) fn digit_str(d: u8) -> (s: &'static str)
    requires
        d < 10,
    ensures
        s@ =~= seq![digit_char(d as nat)],
{
    proof {
        reveal_strlit("0");
        reveal_strlit("1");
        reveal_strlit("2");
        reveal_strlit("3");
        reveal_strlit("4");
        reveal_strlit("5");
        reveal_strlit("6");
        reveal_strlit("7");
        reveal_strlit("8");
        reveal_strlit("9");
    }
    match d {
        0 => "0",
        1 => "1",
        2 => "2",
        3 => "3",
        4 => "4",
        5 => "5",
        6 => "6",
        7 => "7",
        8 => "8",
        _ => "9",
    }
}

pub(crate) fn format_two_digits(n: u8) -> (s: String)
    requires
        n < 100,
    ensures
        s@ =~= two_digits(n as nat),
{
    let mut s = String::from_str(digit_str(n / 10));
    s.append(digit_str(n % 10));
    s
}


/// The decimal rendering of a number, most significant digit first.
pub open spec fn dec_chars(n: nat) -> Seq<char>
    decreases n,
{
    if n < 10 {
        seq![digit_char(n)]
    } else {
        dec_chars(n / 10) + seq![digit_char(n % 10)]
    }
}

pub(crate) fn format_dec_chars(n: u16) -> (s: String)
    ensures
        s@ =~= dec_chars(n as nat),
    decreases n,
{
    if n < 10 {
        String::from_str(digit_str(n as u8))
    } else {
        let mut s = format_dec_chars(n / 10);
        s.append(digit_str((n % 10) as u8));
        s
    }
}

} // verus!
