//! The protocol codec: responses, JSON string quoting of their content, and
//! the wire form `status-line CRLF Content-Type CRLF Content-Length CRLF CRLF
//! quoted-content`, together with the parser that recovers a response from
//! those bytes and the proof that the two are a lossless round trip.
//!
//! Quoting works on the UTF-8 bytes of the content: the double quote and the
//! backslash are escaped with a backslash, control bytes become a `\u00xx`
//! escape, and every other byte (in particular every byte of a multi-byte
//! UTF-8 sequence) passes through unchanged.

use vstd::prelude::*;
use vstd::string::StrSliceExecFns;
use vstd::string::StringSliceAdditionalSpecFns;
use vstd::slice::slice_subrange;
use vstd::utf8::decode_utf8;
use vstd::utf8::encode_utf8;

verus! {

// ---------------------------------------------------------------------------
// Decimal digits over bytes (used for the Content-Length value).
// ---------------------------------------------------------------------------

/// The ASCII byte of one decimal digit.
pub open spec fn digit_byte(d: nat) -> u8
    recommends
        d < 10,
{
    (48 + d) as u8
}

/// The ASCII decimal rendering of a number, most significant digit first.
pub open spec fn dec_bytes(n: nat) -> Seq<u8>
    decreases n,
{
    if n < 10 {
        seq![digit_byte(n)]
    } else {
        dec_bytes(n / 10) + seq![digit_byte(n % 10)]
    }
}

/// Every byte of a decimal rendering is an ASCII digit.
pub proof fn lemma_dec_bytes_are_digits(n: nat)
    ensures
        forall|i: int| 0 <= i < dec_bytes(n).len() ==> 48 <= #[trigger] dec_bytes(n)[i] <= 57,
    decreases n,
{
    if n >= 10 {
        lemma_dec_bytes_are_digits(n / 10);
        let pre = dec_bytes(n / 10);
        assert(dec_bytes(n) =~= pre + seq![digit_byte(n % 10)]);
        assert forall|i: int| 0 <= i < dec_bytes(n).len() implies 48 <= #[trigger] dec_bytes(
            n,
        )[i] <= 57 by {
            if i < pre.len() {
                assert(dec_bytes(n)[i] == pre[i]);
            } else {
                assert(dec_bytes(n)[i] == digit_byte(n % 10));
            }
        }
    }
}

/// Renders a number in ASCII decimal.
pub fn format_dec(n: usize) -> (v: Vec<u8>)
    ensures
        v@ =~= dec_bytes(n as nat),
    decreases n,
{
    if n < 10 {
        let mut v: Vec<u8> = Vec::new();
        v.push(48 + n as u8);
        v
    } else {
        let mut v = format_dec(n / 10);
        v.push(48 + (n % 10) as u8);
        v
    }
}

// ---------------------------------------------------------------------------
// JSON string quoting over bytes.
// ---------------------------------------------------------------------------

/// The ASCII byte of one lowercase hexadecimal digit.
pub open spec fn hex_byte(d: nat) -> u8
    recommends
        d < 16,
{
    if d < 10 {
        (48 + d) as u8
    } else {
        (87 + d) as u8
    }
}

pub open spec fn is_hex_byte(b: u8) -> bool {
    (48 <= b <= 57) || (97 <= b <= 102)
}

/// The value of one hexadecimal digit byte.
pub open spec fn hex_val(b: u8) -> nat
    recommends
        is_hex_byte(b),
{
    if 48 <= b <= 57 {
        (b - 48) as nat
    } else {
        (b - 87) as nat
    }
}

/// The escape sequence (or the byte itself) that quoting emits for one byte.
pub open spec fn quote_byte(b: u8) -> Seq<u8> {
    if b == 34 {
        seq![92u8, 34u8]
    } else if b == 92 {
        seq![92u8, 92u8]
    } else if b < 32 {
        seq![92u8, 117u8, 48u8, 48u8, hex_byte((b / 16) as nat), hex_byte((b % 16) as nat)]
    } else {
        seq![b]
    }
}

/// The escaped body of a quoted string, without the surrounding quotes.
pub open spec fn quote_bytes(s: Seq<u8>) -> Seq<u8>
    decreases s.len(),
{
    if s.len() == 0 {
        Seq::empty()
    } else {
        quote_byte(s[0]) + quote_bytes(s.drop_first())
    }
}

/// The full quoted form: the escaped bytes between double quotes.
pub open spec fn quoted(s: Seq<u8>) -> Seq<u8> {
    seq![34u8] + quote_bytes(s) + seq![34u8]
}

pub proof fn lemma_quote_bytes_concat(a: Seq<u8>, b: Seq<u8>)
    ensures
        quote_bytes(a + b) =~= quote_bytes(a) + quote_bytes(b),
    decreases a.len(),
{
    if a.len() == 0 {
        assert(a + b =~= b);
    } else {
        assert((a + b).drop_first() =~= a.drop_first() + b);
        assert((a + b)[0] == a[0]);
        lemma_quote_bytes_concat(a.drop_first(), b);
    }
}

fn hex_digit(d: u8) -> (r: u8)
    requires
        d < 16,
    ensures
        r == hex_byte(d as nat),
{
    if d < 10 {
        48 + d
    } else {
        87 + d
    }
}

/// Quotes the bytes of a content string for transport.
pub fn quote_string_bytes(s: &[u8]) -> (out: Vec<u8>)
    ensures
        out@ =~= quoted(s@),
{
    let mut out: Vec<u8> = Vec::new();
    out.push(34);
    let mut i: usize = 0;
    while i < s.len()
        invariant
            0 <= i <= s@.len(),
            out@ =~= seq![34u8] + quote_bytes(s@.take(i as int)),
        decreases s@.len() - i,
    {
        let b = s[i];
        proof {
            assert(s@.take(i + 1) =~= s@.take(i as int) + seq![s@[i as int]]);
            lemma_quote_bytes_concat(s@.take(i as int), seq![s@[i as int]]);
            assert(seq![s@[i as int]].drop_first() =~= Seq::<u8>::empty());
            assert(quote_bytes(Seq::<u8>::empty()) =~= Seq::<u8>::empty());
            assert(quote_bytes(seq![s@[i as int]]) =~= quote_byte(s@[i as int]));
        }
        if b == 34 {
            out.push(92);
            out.push(34);
        } else if b == 92 {
            out.push(92);
            out.push(92);
        } else if b < 32 {
            out.push(92);
            out.push(117);
            out.push(48);
            out.push(48);
            out.push(hex_digit(b / 16));
            out.push(hex_digit(b % 16));
        } else {
            out.push(b);
        }
        i += 1;
    }
    proof {
        assert(s@.take(s@.len() as int) =~= s@);
    }
    out.push(34);
    out
}

/// Unescapes the body of a quoted string.  `None` when the bytes are not an
/// escape sequence this codec emits, or when a raw quote or backslash stands
/// where it would have been escaped.
pub open spec fn unquote_bytes(s: Seq<u8>) -> Option<Seq<u8>>
    decreases s.len(),
{
    if s.len() == 0 {
        Some(Seq::empty())
    } else if s[0] == 92 {
        if s.len() >= 2 && s[1] == 34 {
            prepend_byte(34, unquote_bytes(s.skip(2)))
        } else if s.len() >= 2 && s[1] == 92 {
            prepend_byte(92, unquote_bytes(s.skip(2)))
        } else if s.len() >= 6 && s[1] == 117 && s[2] == 48 && s[3] == 48 && is_hex_byte(s[4])
            && is_hex_byte(s[5]) && hex_val(s[4]) * 16 + hex_val(s[5]) < 32 {
            prepend_byte(
                (hex_val(s[4]) * 16 + hex_val(s[5])) as u8,
                unquote_bytes(s.skip(6)),
            )
        } else {
            None
        }
    } else if s[0] == 34 {
        None
    } else {
        prepend_byte(s[0], unquote_bytes(s.skip(1)))
    }
}

pub open spec fn prepend_byte(b: u8, rest: Option<Seq<u8>>) -> Option<Seq<u8>> {
    match rest {
        Some(r) => Some(seq![b] + r),
        None => None,
    }
}

/// Unescaping the full quoted form: strip the surrounding quotes, then the
/// escapes.
pub open spec fn unquoted(q: Seq<u8>) -> Option<Seq<u8>> {
    if q.len() >= 2 && q[0] == 34 && q.last() == 34 {
        unquote_bytes(q.subrange(1, q.len() - 1))
    } else {
        None
    }
}

/// Quoting then unquoting gives back exactly the original bytes: the codec's
/// escaping is a lossless round trip for arbitrary content, including quotes
/// and backslashes.
pub proof fn lemma_unquote_quote_bytes(s: Seq<u8>)
    ensures
        unquote_bytes(quote_bytes(s)) == Some(s),
    decreases s.len(),
{
    if s.len() == 0 {
    } else {
        let b = s[0];
        let rest = s.drop_first();
        lemma_unquote_quote_bytes(rest);
        let q = quote_bytes(s);
        assert(q =~= quote_byte(b) + quote_bytes(rest));
        if b == 34 {
            assert(q.skip(2) =~= quote_bytes(rest));
            assert(seq![34u8] + rest =~= s);
        } else if b == 92 {
            assert(q.skip(2) =~= quote_bytes(rest));
            assert(seq![92u8] + rest =~= s);
        } else if b < 32 {
            assert(q.skip(6) =~= quote_bytes(rest));
            assert(q[4] == hex_byte((b / 16) as nat));
            assert(q[5] == hex_byte((b % 16) as nat));
            assert(is_hex_byte(hex_byte((b / 16) as nat)));
            assert(is_hex_byte(hex_byte((b % 16) as nat)));
            assert(hex_val(hex_byte((b / 16) as nat)) == b / 16);
            assert(hex_val(hex_byte((b % 16) as nat)) == b % 16);
            assert(hex_val(q[4]) * 16 + hex_val(q[5]) == b) by {
                assert((b / 16) * 16 + b % 16 == b) by (nonlinear_arith);
            }
            assert(seq![b] + rest =~= s);
        } else {
            assert(q.skip(1) =~= quote_bytes(rest));
            assert(q[0] != 92 && q[0] != 34);
            assert(seq![b] + rest =~= s);
        }
    }
}

/// The round trip through the full quoted form.
pub proof fn lemma_unquote_quoted(s: Seq<u8>)
    ensures
        unquoted(quoted(s)) == Some(s),
{
    let q = quoted(s);
    assert(q[0] == 34 && q.last() == 34);
    assert(q.subrange(1, q.len() - 1) =~= quote_bytes(s));
    lemma_unquote_quote_bytes(s);
}


// ---------------------------------------------------------------------------
// Responses and their wire form.
// ---------------------------------------------------------------------------

/// The status line of a response.
#[derive(Clone, Copy, PartialEq, Eq, Structural, Debug)]
pub enum StatusLine {
    Success,
    NotFound,
    ServerError,
}

pub open spec fn status_text(s: StatusLine) -> Seq<char> {
    match s {
        StatusLine::Success => "HTTP/1.1 200 OK"@,
        StatusLine::NotFound => "HTTP/1.1 404 NOT FOUND"@,
        StatusLine::ServerError => "HTTP/1.1 500 INTERNAL SERVER ERROR"@,
    }
}

impl StatusLine {
    pub fn as_str(&self) -> (t: &'static str)
        ensures
            t@ == status_text(*self),
            vstd::string::is_ascii(t),
    {
        proof {
            reveal_strlit("HTTP/1.1 200 OK");
            reveal_strlit("HTTP/1.1 404 NOT FOUND");
            reveal_strlit("HTTP/1.1 500 INTERNAL SERVER ERROR");
        }
        match self {
            StatusLine::Success => "HTTP/1.1 200 OK",
            StatusLine::NotFound => "HTTP/1.1 404 NOT FOUND",
            StatusLine::ServerError => "HTTP/1.1 500 INTERNAL SERVER ERROR",
        }
    }
}

/// One response: a status line and a textual content, always serialized
/// before being written to the socket.
#[derive(Debug)]
pub struct Response {
    pub status_line: StatusLine,
    pub content: String,
}

/// The mathematical value of a response.
pub struct ResponseView {
    pub status_line: StatusLine,
    pub content: Seq<char>,
}

impl View for Response {
    type V = ResponseView;

    open spec fn view(&self) -> ResponseView {
        ResponseView { status_line: self.status_line, content: self.content@ }
    }
}

impl Response {
    pub fn new(status_line: StatusLine, content: String) -> (r: Response)
        ensures
            r@ == (ResponseView { status_line, content: content@ }),
    {
        Response { status_line, content }
    }

    /// A successful response carrying the given content.
    pub fn success(content: String) -> (r: Response)
        ensures
            r@ == (ResponseView { status_line: StatusLine::Success, content: content@ }),
    {
        Response { status_line: StatusLine::Success, content }
    }
}

/// The bytes a content string puts on the wire before quoting: its UTF-8
/// encoding.
pub open spec fn content_bytes(cs: Seq<char>) -> Seq<u8> {
    encode_utf8(cs)
}

/// The fixed header block between the status line and the Content-Length
/// value.
pub open spec fn header_block() -> Seq<char> {
    "\r\nContent-Type: application/json\r\nContent-Length: "@
}

pub open spec fn crlf2() -> Seq<u8> {
    seq![13u8, 10u8, 13u8, 10u8]
}

/// The bytes of an ASCII character sequence.
pub open spec fn ascii_of(cs: Seq<char>) -> Seq<u8> {
    Seq::new(cs.len(), |i: int| cs[i] as u8)
}

pub(crate) fn ascii_bytes(s: &str) -> (v: Vec<u8>)
    requires
        vstd::string::is_ascii(s),
    ensures
        v@ =~= ascii_of(s@),
{
    let v = s.as_bytes_vec();
    proof {
        vstd::string::is_ascii_spec_bytes(s);
    }
    v
}

fn header_block_str() -> (t: &'static str)
    ensures
        t@ == header_block(),
        vstd::string::is_ascii(t),
{
    proof {
        reveal_strlit("\r\nContent-Type: application/json\r\nContent-Length: ");
    }
    "\r\nContent-Type: application/json\r\nContent-Length: "
}

/// The wire form of a response: status line, fixed headers, the length of
/// the quoted content, a blank line, then the quoted content.  The
/// Content-Length is computed over the already-quoted content.
pub open spec fn wire_bytes(v: ResponseView) -> Seq<u8> {
    ascii_of(status_text(v.status_line)) + ascii_of(header_block()) + dec_bytes(
        quoted(content_bytes(v.content)).len(),
    ) + crlf2() + quoted(content_bytes(v.content))
}

impl Response {
    /// Serializes the response into its wire bytes.
    pub fn to_wire(&self) -> (w: Vec<u8>)
        ensures
            w@ =~= wire_bytes(self@),
    {
        let mut w = ascii_bytes(self.status_line.as_str());
        let mut h = ascii_bytes(header_block_str());
        w.append(&mut h);
        let cb = self.content.as_str().as_bytes_vec();
        let mut q = quote_string_bytes(cb.as_slice());
        let mut d = format_dec(q.len());
        w.append(&mut d);
        w.push(13);
        w.push(10);
        w.push(13);
        w.push(10);
        w.append(&mut q);
        w
    }
}


// ---------------------------------------------------------------------------
// Parsing the wire form back.
// ---------------------------------------------------------------------------

/// True when `pat` occurs at offset `at` of `w`.
pub open spec fn has_seg(w: Seq<u8>, at: int, pat: Seq<u8>) -> bool {
    0 <= at && at + pat.len() <= w.len() && w.subrange(at, at + pat.len()) =~= pat
}

/// The index of the first non-digit byte at or after `at`.
pub open spec fn digits_end(w: Seq<u8>, at: int) -> int
    decreases w.len() - at,
{
    if 0 <= at < w.len() && 48 <= w[at] <= 57 {
        digits_end(w, at + 1)
    } else {
        at
    }
}

proof fn lemma_digits_end_run(w: Seq<u8>, a: int, b: int)
    requires
        0 <= a <= b <= w.len(),
        forall|i: int| a <= i < b ==> 48 <= #[trigger] w[i] <= 57,
        b == w.len() || !(48 <= w[b] <= 57),
    ensures
        digits_end(w, a) == b,
    decreases b - a,
{
    if a < b {
        lemma_digits_end_run(w, a + 1, b);
    }
}

pub open spec fn parse_after_status(w: Seq<u8>, st: StatusLine, at: int) -> Option<
    (StatusLine, Seq<u8>),
> {
    if has_seg(w, at, ascii_of(header_block())) {
        let d0 = at + ascii_of(header_block()).len();
        let d1 = digits_end(w, d0);
        if d1 > d0 && has_seg(w, d1, crlf2()) {
            match unquoted(w.skip(d1 + 4)) {
                Some(c) => Some((st, c)),
                None => None,
            }
        } else {
            None
        }
    } else {
        None
    }
}

/// What parsing the wire form yields: the status line and the content bytes.
pub open spec fn parse_wire(w: Seq<u8>) -> Option<(StatusLine, Seq<u8>)> {
    if has_seg(w, 0, ascii_of(status_text(StatusLine::Success))) {
        parse_after_status(w, StatusLine::Success, status_text(StatusLine::Success).len() as int)
    } else if has_seg(w, 0, ascii_of(status_text(StatusLine::NotFound))) {
        parse_after_status(w, StatusLine::NotFound, status_text(StatusLine::NotFound).len() as int)
    } else if has_seg(w, 0, ascii_of(status_text(StatusLine::ServerError))) {
        parse_after_status(
            w,
            StatusLine::ServerError,
            status_text(StatusLine::ServerError).len() as int,
        )
    } else {
        None
    }
}

fn seg_at(w: &[u8], at: usize, pat: &[u8]) -> (b: bool)
    ensures
        b == has_seg(w@, at as int, pat@),
{
    let wlen = w.len();
    if at > wlen || pat.len() > wlen - at {
        return false;
    }
    let mut i: usize = 0;
    while i < pat.len()
        invariant
            at + pat@.len() <= w@.len(),
            w@.len() <= usize::MAX,
            0 <= i <= pat@.len(),
            forall|j: int| 0 <= j < i ==> w@[at + j] == #[trigger] pat@[j],
        decreases pat@.len() - i,
    {
        if w[at + i] != pat[i] {
            proof {
                assert(w@.subrange(at as int, at + pat@.len())[i as int] != pat@[i as int]);
            }
            return false;
        }
        i += 1;
    }
    proof {
        assert(w@.subrange(at as int, at + pat@.len()) =~= pat@);
    }
    true
}

fn unquote_inner(q: &[u8], i: usize) -> (r: Option<Vec<u8>>)
    requires
        i <= q@.len(),
    ensures
        match r {
            Some(v) => unquote_bytes(q@.skip(i as int)) == Some(v@),
            None => unquote_bytes(q@.skip(i as int)) is None,
        },
    decreases q@.len() - i,
{
    let ghost tail = q@.skip(i as int);
    if i == q.len() {
        proof {
            assert(tail =~= Seq::<u8>::empty());
        }
        return Some(Vec::new());
    }
    let b = q[i];
    proof {
        assert(tail[0] == b);
    }
    if b == 92 {
        if q.len() - i < 2 {
            proof {
                assert(tail.len() < 2);
            }
            return None;
        }
        let nb = q[i + 1];
        proof {
            assert(tail[1] == nb);
        }
        if nb == 34 || nb == 92 {
            proof {
                assert(tail.skip(2) =~= q@.skip(i + 2));
            }
            match unquote_inner(q, i + 2) {
                Some(mut v) => {
                    v.insert(0, nb);
                    proof {
                        assert(v@ =~= seq![nb] + v@.skip(1));
                    }
                    Some(v)
                },
                None => None,
            }
        } else if nb == 117 {
            if q.len() - i < 6 {
                proof {
                    assert(tail.len() < 6);
                }
                return None;
            }
            let h2 = q[i + 2];
            let h3 = q[i + 3];
            let h4 = q[i + 4];
            let h5 = q[i + 5];
            proof {
                assert(tail[2] == h2 && tail[3] == h3 && tail[4] == h4 && tail[5] == h5);
            }
            let hi_ok = (48 <= h4 && h4 <= 57) || (97 <= h4 && h4 <= 102);
            let lo_ok = (48 <= h5 && h5 <= 57) || (97 <= h5 && h5 <= 102);
            if h2 != 48 || h3 != 48 || !hi_ok || !lo_ok {
                return None;
            }
            let hi: u8 = if h4 <= 57 { h4 - 48 } else { h4 - 87 };
            let lo: u8 = if h5 <= 57 { h5 - 48 } else { h5 - 87 };
            let v: u8 = hi * 16 + lo;
            if v >= 32 {
                return None;
            }
            proof {
                assert(tail.skip(6) =~= q@.skip(i + 6));
            }
            match unquote_inner(q, i + 6) {
                Some(mut vec) => {
                    vec.insert(0, v);
                    proof {
                        assert(vec@ =~= seq![v] + vec@.skip(1));
                    }
                    Some(vec)
                },
                None => None,
            }
        } else {
            None
        }
    } else if b == 34 {
        None
    } else {
        proof {
            assert(tail.skip(1) =~= q@.skip(i + 1));
        }
        match unquote_inner(q, i + 1) {
            Some(mut v) => {
                v.insert(0, b);
                proof {
                    assert(v@ =~= seq![b] + v@.skip(1));
                }
                Some(v)
            },
            None => None,
        }
    }
}

/// Unescapes a full quoted string.
pub fn unquote_string_bytes(q: &[u8]) -> (r: Option<Vec<u8>>)
    ensures
        match r {
            Some(v) => unquoted(q@) == Some(v@),
            None => unquoted(q@) is None,
        },
{
    if q.len() < 2 {
        return None;
    }
    if q[0] != 34 || q[q.len() - 1] != 34 {
        return None;
    }
    let body = slice_subrange(q, 1, q.len() - 1);
    proof {
        assert(body@ =~= q@.subrange(1, q@.len() - 1));
        assert(body@.skip(0) =~= body@);
    }
    unquote_inner(body, 0)
}

/// Parses wire bytes back into a status line and the content bytes.
pub fn parse_response(w: &[u8]) -> (r: Option<(StatusLine, Vec<u8>)>)
    ensures
        match r {
            Some(p) => parse_wire(w@) == Some((p.0, p.1@)),
            None => parse_wire(w@) is None,
        },
{
    let ok_pat = ascii_bytes(StatusLine::Success.as_str());
    let nf_pat = ascii_bytes(StatusLine::NotFound.as_str());
    let se_pat = ascii_bytes(StatusLine::ServerError.as_str());
    let st: StatusLine;
    let at: usize;
    if seg_at(w, 0, ok_pat.as_slice()) {
        st = StatusLine::Success;
        at = ok_pat.len();
    } else if seg_at(w, 0, nf_pat.as_slice()) {
        st = StatusLine::NotFound;
        at = nf_pat.len();
    } else if seg_at(w, 0, se_pat.as_slice()) {
        st = StatusLine::ServerError;
        at = se_pat.len();
    } else {
        return None;
    }
    let hb = ascii_bytes(header_block_str());
    if !seg_at(w, at, hb.as_slice()) {
        return None;
    }
    let wlen = w.len();
    proof {
        assert(at + hb@.len() <= w@.len());
    }
    let d0 = at + hb.len();
    let mut d1 = d0;
    while d1 < w.len() && 48 <= w[d1] && w[d1] <= 57
        invariant
            d0 <= d1 <= w@.len(),
            digits_end(w@, d0 as int) == digits_end(w@, d1 as int),
        decreases w@.len() - d1,
    {
        d1 += 1;
    }
    proof {
        assert(digits_end(w@, d1 as int) == d1);
    }
    if d1 == d0 {
        return None;
    }
    let mut crlf_pat: Vec<u8> = Vec::new();
    crlf_pat.push(13);
    crlf_pat.push(10);
    crlf_pat.push(13);
    crlf_pat.push(10);
    proof {
        assert(crlf_pat@ =~= crlf2());
    }
    if !seg_at(w, d1, crlf_pat.as_slice()) {
        return None;
    }
    let body = slice_subrange(w, d1 + 4, w.len());
    proof {
        assert(body@ =~= w@.skip(d1 + 4));
    }
    match unquote_string_bytes(body) {
        Some(v) => Some((st, v)),
        None => None,
    }
}

/// Encoding a response and parsing the bytes back recovers the status line
/// and the content exactly: the wire form is a lossless round trip for
/// arbitrary content, including quotes and backslashes.
pub proof fn lemma_wire_roundtrip(v: ResponseView)
    ensures
        parse_wire(wire_bytes(v)) == Some((v.status_line, content_bytes(v.content))),
        decode_utf8(parse_wire(wire_bytes(v))->Some_0.1) == v.content,
{
    reveal_strlit("HTTP/1.1 200 OK");
    reveal_strlit("HTTP/1.1 404 NOT FOUND");
    reveal_strlit("HTTP/1.1 500 INTERNAL SERVER ERROR");
    let w = wire_bytes(v);
    let st = ascii_of(status_text(v.status_line));
    let hb = ascii_of(header_block());
    let q = quoted(content_bytes(v.content));
    let d = dec_bytes(q.len());
    let sl = st.len() as int;
    assert(w =~= st + hb + d + crlf2() + q);

    // The three status lines are told apart by their tenth byte.
    assert(status_text(StatusLine::Success)[9] == '2');
    assert(status_text(StatusLine::NotFound)[9] == '4');
    assert(status_text(StatusLine::ServerError)[9] == '5');
    assert(w[9] == st[9]);
    match v.status_line {
        StatusLine::Success => {
            assert(has_seg(w, 0, st)) by {
                assert(w.subrange(0, sl) =~= st);
            }
        },
        StatusLine::NotFound => {
            assert(!has_seg(w, 0, ascii_of(status_text(StatusLine::Success)))) by {
                let p = ascii_of(status_text(StatusLine::Success));
                assert(w[9] == '4' as u8);
                if has_seg(w, 0, p) {
                    assert(w.subrange(0, p.len() as int)[9] == w[9]);
                    assert(p[9] == '2' as u8);
                }
            }
            assert(has_seg(w, 0, st)) by {
                assert(w.subrange(0, sl) =~= st);
            }
        },
        StatusLine::ServerError => {
            assert(!has_seg(w, 0, ascii_of(status_text(StatusLine::Success)))) by {
                let p = ascii_of(status_text(StatusLine::Success));
                assert(w[9] == '5' as u8);
                if has_seg(w, 0, p) {
                    assert(w.subrange(0, p.len() as int)[9] == w[9]);
                    assert(p[9] == '2' as u8);
                }
            }
            assert(!has_seg(w, 0, ascii_of(status_text(StatusLine::NotFound)))) by {
                let p = ascii_of(status_text(StatusLine::NotFound));
                assert(w[9] == '5' as u8);
                if has_seg(w, 0, p) {
                    assert(w.subrange(0, p.len() as int)[9] == w[9]);
                    assert(p[9] == '4' as u8);
                }
            }
            assert(has_seg(w, 0, st)) by {
                assert(w.subrange(0, sl) =~= st);
            }
        },
    }
    assert(has_seg(w, sl, hb)) by {
        assert(w.subrange(sl, sl + hb.len()) =~= hb);
    }
    let d0 = sl + hb.len();
    let d1 = d0 + d.len();
    assert(forall|i: int| 0 <= i < d.len() ==> d[i] == #[trigger] w[d0 + i]);
    lemma_dec_bytes_are_digits(q.len());
    assert(w[d1] == 13);
    lemma_digits_end_run(w, d0, d1);
    assert(digits_end(w, d0) == d1);
    assert(d1 > d0);
    assert(has_seg(w, d1, crlf2())) by {
        assert(w.subrange(d1, d1 + 4) =~= crlf2());
    }
    assert(w.skip(d1 + 4) =~= q);
    lemma_unquote_quoted(content_bytes(v.content));
    assert(parse_after_status(w, v.status_line, sl) == Some((v.status_line, content_bytes(v.content))));
    vstd::utf8::encode_utf8_decode_utf8(v.content);
}

} // verus!
