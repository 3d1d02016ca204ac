//! Decoding a raw byte buffer into a structured request.
//!
//! The head (request line and header block) is parsed by `httparse` behind a
//! trusted wrapper; everything after it — the permissive fallback for an
//! incomplete head, the Content-Length lookup and the body extraction — is
//! verified here.

use vstd::prelude::*;
use vstd::slice::{slice_subrange, slice_to_vec};
use vstd::utf8::valid_utf8;

use crate::codec::ascii_of;

verus! {

/// The number of header slots handed to the head parser.  An incomplete
/// header block leaves the body offset at this capacity — a deliberately
/// permissive degraded mode kept for compatibility.
pub const HEADER_CAPACITY: usize = 16;

/// The head of a request as the parser reports it: the request line fields,
/// the headers as (name, value) byte pairs, and where the head ended.
pub struct ParsedHead {
    pub method: Option<String>,
    pub path: Option<String>,
    pub headers: Vec<(Vec<u8>, Vec<u8>)>,
    pub complete: bool,
    pub offset: usize,
}

/// The text of an optional string.
pub open spec fn opt_text(o: Option<String>) -> Option<Seq<char>> {
    match o {
        Some(s) => Some(s@),
        None => None,
    }
}

/// Whether the head parser accepts the buffer (it is a function of the
/// buffer alone).
pub uninterp spec fn head_ok_of(buffer: Seq<u8>) -> bool;

/// The method the head parser reads from the buffer.
pub uninterp spec fn head_method_of(buffer: Seq<u8>) -> Option<Seq<char>>;

/// The path the head parser reads from the buffer.
pub uninterp spec fn head_path_of(buffer: Seq<u8>) -> Option<Seq<char>>;

/// The (name, value) header pairs the head parser reads from the buffer.
pub uninterp spec fn head_headers_of(buffer: Seq<u8>) -> Seq<(Seq<u8>, Seq<u8>)>;

/// Whether the header block terminates within the slot capacity.
pub uninterp spec fn head_complete_of(buffer: Seq<u8>) -> bool;

/// On a complete head, the index immediately past the header block.
pub uninterp spec fn head_offset_of(buffer: Seq<u8>) -> int;

#[verifier::external_type_specification]
#[verifier::external_body]
pub struct ExHttparseError(httparse::Error);

/// Relies on `httparse::Request::parse` with a 16-slot header array.  The
/// result is a function of the buffer alone, so its parts are named: on a
/// complete parse the offset is the byte index at which the body begins,
/// which never exceeds the buffer's length; an incomplete head is reported
/// as partial (with the slots restored); malformed bytes are an error.
#[verifier::external_body]
fn parse_head(buffer: &[u8]) -> (r: Result<ParsedHead, httparse::Error>)
    ensures
        r is Ok <==> head_ok_of(buffer@),
        r matches Ok(h) ==> {
            &&& opt_text(h.method) == head_method_of(buffer@)
            &&& opt_text(h.path) == head_path_of(buffer@)
            &&& header_views(h.headers@) == head_headers_of(buffer@)
            &&& h.complete == head_complete_of(buffer@)
            &&& h.complete ==> h.offset == head_offset_of(buffer@) && h.offset <= buffer@.len()
        },
{
    let mut slots = [httparse::EMPTY_HEADER; 16];
    let mut req = httparse::Request::new(&mut slots);
    match req.parse(buffer) {
        Ok(status) => {
            let (complete, offset) = match status {
                httparse::Status::Complete(n) => (true, n),
                httparse::Status::Partial => (false, 0),
            };
            let headers = req.headers.iter().map(|h| (h.name.as_bytes().to_vec(), h.value.to_vec())).collect();
            Ok(ParsedHead { method: req.method.map(str::to_string), path: req.path.map(str::to_string), headers, complete, offset })
        },
        Err(e) => Err(e),
    }
}

/// Relies on `httparse::Error`: its variants are told apart one arm each and
/// carried into the library's cause enum, one to one.
#[verifier::external_body]
fn head_error_cause(e: httparse::Error) -> (c: ParseCause)
{
    match e {
        httparse::Error::HeaderName => ParseCause::HeaderName,
        httparse::Error::HeaderValue => ParseCause::HeaderValue,
        httparse::Error::NewLine => ParseCause::NewLine,
        httparse::Error::Status => ParseCause::Status,
        httparse::Error::Token => ParseCause::Token,
        httparse::Error::TooManyHeaders => ParseCause::TooManyHeaders,
        httparse::Error::Version => ParseCause::Version,
    }
}

#[verifier::external_type_specification]
#[verifier::external_body]
pub struct ExUtf8Error(core::str::Utf8Error);

/// Relies on `core::str::from_utf8`: it succeeds exactly on valid UTF-8, and
/// the string it returns is over the given bytes.
pub assume_specification<'a>[ core::str::from_utf8 ](v: &'a [u8]) -> (r: Result<
    &'a str,
    core::str::Utf8Error,
>)
    ensures
        r is Ok <==> valid_utf8(v@),
;

/// What the head parser objected to, mirrored variant for variant.
#[derive(Clone, Copy, PartialEq, Eq, Structural, Debug)]
pub enum ParseCause {
    /// Invalid byte in a header name.
    HeaderName,
    /// Invalid byte in a header value.
    HeaderValue,
    /// Invalid byte in a new line.
    NewLine,
    /// Invalid byte in a response status.
    Status,
    /// Invalid byte where a token is required.
    Token,
    /// More headers than the slot capacity can hold.
    TooManyHeaders,
    /// Invalid byte in the HTTP version.
    Version,
}

/// The request head could not be parsed; carries the parser's cause.
#[derive(Clone, Copy, PartialEq, Eq, Structural, Debug)]
pub enum ProtocolError {
    Malformed(ParseCause),
}

/// Why a body could not be extracted.
#[derive(Clone, Copy, PartialEq, Eq, Structural, Debug)]
pub enum BodyError {
    /// No Content-Length header is present.
    MissingLength,
    /// The Content-Length value is not valid UTF-8.
    InvalidEncoding,
    /// The Content-Length value is not a number that fits the machine.
    InvalidNumber,
    /// The buffer does not contain the declared number of body bytes.
    OutOfRange,
}

/// One parsed request, scoped to one connection.
#[derive(Debug)]
pub struct Request {
    pub method: Option<String>,
    pub path: Option<String>,
    pub headers: Vec<(Vec<u8>, Vec<u8>)>,
    pub header_offset: usize,
    pub buffer: Vec<u8>,
}

/// The headers as mathematical (name, value) byte sequences.
pub open spec fn header_views(hs: Seq<(Vec<u8>, Vec<u8>)>) -> Seq<(Seq<u8>, Seq<u8>)> {
    hs.map_values(|h: (Vec<u8>, Vec<u8>)| (h.0@, h.1@))
}

/// ASCII upper-case letters folded to lower case; all other bytes unchanged.
pub open spec fn lower_byte(b: u8) -> u8 {
    if 65 <= b <= 90 {
        (b + 32) as u8
    } else {
        b
    }
}

/// True when the header name is Content-Length up to ASCII case.
pub open spec fn is_content_length_name(n: Seq<u8>) -> bool {
    n.map_values(|b: u8| lower_byte(b)) =~= ascii_of("content-length"@)
}

/// The value of the first Content-Length header, if any.
pub open spec fn content_length_header(hs: Seq<(Seq<u8>, Seq<u8>)>) -> Option<Seq<u8>>
    decreases hs.len(),
{
    if hs.len() == 0 {
        None
    } else if is_content_length_name(hs[0].0) {
        Some(hs[0].1)
    } else {
        content_length_header(hs.drop_first())
    }
}

/// The digits of a Content-Length value: an optional leading plus sign is
/// dropped.
pub open spec fn cl_digits(v: Seq<u8>) -> Seq<u8> {
    if v.len() > 0 && v[0] == 43 {
        v.drop_first()
    } else {
        v
    }
}

pub open spec fn all_digits(v: Seq<u8>) -> bool {
    forall|i: int| 0 <= i < v.len() ==> 48 <= #[trigger] v[i] <= 57
}

/// The number the digit bytes denote.
pub open spec fn dec_val(v: Seq<u8>) -> int
    decreases v.len(),
{
    if v.len() == 0 {
        0
    } else {
        dec_val(v.take(v.len() - 1)) * 10 + (v.last() - 48)
    }
}

/// True when the bytes parse as a machine-sized length: optional plus sign,
/// at least one digit, nothing else, value within the machine's range.
pub open spec fn is_length_number(v: Seq<u8>) -> bool {
    let d = cl_digits(v);
    d.len() > 0 && all_digits(d) && dec_val(d) <= usize::MAX
}

proof fn lemma_dec_val_nonneg(v: Seq<u8>)
    requires
        all_digits(v),
    ensures
        dec_val(v) >= 0,
    decreases v.len(),
{
    if v.len() > 0 {
        assert(all_digits(v.take(v.len() - 1)));
        lemma_dec_val_nonneg(v.take(v.len() - 1));
    }
}

/// A digit run's value never falls below the value of any of its prefixes.
proof fn lemma_dec_val_prefix(v: Seq<u8>, i: int)
    requires
        all_digits(v),
        0 <= i <= v.len(),
    ensures
        dec_val(v.take(i)) <= dec_val(v),
    decreases v.len() - i,
{
    if i < v.len() {
        lemma_dec_val_prefix(v, i + 1);
        let p = v.take(i + 1);
        assert(p.take(p.len() - 1) =~= v.take(i));
        assert(all_digits(v.take(i)));
        lemma_dec_val_nonneg(v.take(i));
        assert(dec_val(p) == dec_val(v.take(i)) * 10 + (v[i] - 48));
    } else {
        assert(v.take(i) =~= v);
    }
}

fn lower_byte_exec(b: u8) -> (r: u8)
    ensures
        r == lower_byte(b),
{
    if 65 <= b && b <= 90 {
        b + 32
    } else {
        b
    }
}

fn name_matches_content_length(n: &[u8]) -> (r: bool)
    ensures
        r == is_content_length_name(n@),
{
    proof {
        reveal_strlit("content-length");
    }
    let target = crate::codec::ascii_bytes("content-length");
    let ghost folded = n@.map_values(|b: u8| lower_byte(b));
    if n.len() != target.len() {
        proof {
            assert(folded.len() == n@.len());
        }
        return false;
    }
    let mut i: usize = 0;
    while i < n.len()
        invariant
            n@.len() == target@.len(),
            target@ =~= ascii_of("content-length"@),
            folded == n@.map_values(|b: u8| lower_byte(b)),
            0 <= i <= n@.len(),
            forall|j: int| 0 <= j < i ==> #[trigger] folded[j] == target@[j],
        decreases n@.len() - i,
    {
        if lower_byte_exec(n[i]) != target[i] {
            proof {
                assert(folded[i as int] != target@[i as int]);
            }
            return false;
        }
        i += 1;
    }
    proof {
        assert(folded =~= target@);
    }
    true
}

/// Skipping headers that are not Content-Length does not change the lookup.
proof fn lemma_content_length_skip(hs: Seq<(Seq<u8>, Seq<u8>)>, i: int)
    requires
        0 <= i < hs.len(),
        !is_content_length_name(hs[i].0),
    ensures
        content_length_header(hs.skip(i)) == content_length_header(hs.skip(i + 1)),
{
    assert(hs.skip(i).drop_first() =~= hs.skip(i + 1));
    assert(hs.skip(i)[0] == hs[i]);
}

fn find_content_length(headers: &Vec<(Vec<u8>, Vec<u8>)>) -> (r: Option<&Vec<u8>>)
    ensures
        match r {
            Some(v) => content_length_header(header_views(headers@)) == Some(v@),
            None => content_length_header(header_views(headers@)) is None,
        },
{
    let ghost hv = header_views(headers@);
    proof {
        assert(hv.skip(0) =~= hv);
    }
    let mut i: usize = 0;
    while i < headers.len()
        invariant
            hv == header_views(headers@),
            0 <= i <= headers@.len(),
            hv.len() == headers@.len(),
            content_length_header(hv) == content_length_header(hv.skip(i as int)),
        decreases headers@.len() - i,
    {
        proof {
            assert(hv[i as int] == (headers@[i as int].0@, headers@[i as int].1@));
        }
        if name_matches_content_length(headers[i].0.as_slice()) {
            proof {
                assert(hv.skip(i as int)[0] == hv[i as int]);
            }
            return Some(&headers[i].1);
        }
        proof {
            lemma_content_length_skip(hv, i as int);
        }
        i += 1;
    }
    proof {
        assert(hv.skip(hv.len() as int) =~= Seq::<(Seq<u8>, Seq<u8>)>::empty());
    }
    None
}

/// Parses a length value as the standard library's integer parser does:
/// optional plus sign, then decimal digits, rejecting anything else and any
/// value over the machine's range.
fn parse_length(v: &[u8]) -> (r: Option<usize>)
    ensures
        match r {
            Some(n) => is_length_number(v@) && n == dec_val(cl_digits(v@)),
            None => !is_length_number(v@),
        },
{
    let ghost d = cl_digits(v@);
    let start: usize = if v.len() > 0 && v[0] == 43 {
        1
    } else {
        0
    };
    proof {
        assert(d =~= v@.skip(start as int));
        assert(d.len() == v@.len() - start);
    }
    if v.len() == start {
        return None;
    }
    let mut acc: usize = 0;
    let mut i: usize = start;
    while i < v.len()
        invariant
            start <= i <= v@.len(),
            v@.len() <= usize::MAX,
            d == cl_digits(v@),
            d =~= v@.skip(start as int),
            all_digits(d.take(i - start)),
            acc == dec_val(d.take(i - start)),
        decreases v@.len() - i,
    {
        let b = v[i];
        proof {
            assert(d[i - start] == b);
        }
        if !(48 <= b && b <= 57) {
            proof {
                assert(!(48 <= d[i - start] <= 57));
                assert(!all_digits(d));
            }
            return None;
        }
        let dig = (b - 48) as usize;
        proof {
            assert(d.take(i - start + 1).take(i - start) =~= d.take(i - start));
            assert(d.take(i - start + 1).last() == b);
            assert(dec_val(d.take(i - start + 1)) == acc * 10 + dig);
            assert(all_digits(d.take(i - start + 1)));
        }
        if acc > (usize::MAX - dig) / 10 {
            proof {
                let m = usize::MAX - dig;
                assert(m == 10 * (m / 10) + (m % 10) && 0 <= m % 10 < 10);
                assert(acc * 10 + dig > usize::MAX) by (nonlinear_arith)
                    requires
                        acc > (m / 10),
                        m == 10 * (m / 10) + (m % 10),
                        0 <= m % 10 < 10,
                        m == usize::MAX - dig,
                ;
                if all_digits(d) {
                    lemma_dec_val_prefix(d, i - start + 1);
                    assert(dec_val(d) > usize::MAX);
                }
            }
            return None;
        }
        proof {
            let m = usize::MAX - dig;
            assert(m == 10 * (m / 10) + (m % 10) && 0 <= m % 10 < 10);
            assert(acc * 10 + dig <= usize::MAX) by (nonlinear_arith)
                requires
                    acc <= (m / 10),
                    m == 10 * (m / 10) + (m % 10),
                    0 <= m % 10 < 10,
                    m == usize::MAX - dig,
            ;
        }
        acc = acc * 10 + dig;
        i += 1;
    }
    proof {
        assert(d.take(d.len() as int) =~= d);
    }
    Some(acc)
}

impl Request {
    /// Builds the request record from a parsed head, applying the permissive
    /// fallback: a complete head fixes the body offset where the parser left
    /// it; an incomplete head falls back to the header-slot capacity.
    pub fn from_head(head: ParsedHead, buffer: Vec<u8>) -> (r: Request)
        ensures
            r.method == head.method,
            r.path == head.path,
            r.headers == head.headers,
            r.buffer == buffer,
            r.header_offset == if head.complete {
                head.offset as int
            } else {
                HEADER_CAPACITY as int
            },
    {
        let header_offset = if head.complete {
            head.offset
        } else {
            HEADER_CAPACITY
        };
        Request {
            method: head.method,
            path: head.path,
            headers: head.headers,
            header_offset,
            buffer,
        }
    }

    /// Parses the buffer's head and builds the request record.  Malformed
    /// head bytes fail; an incomplete head does not (the permissive
    /// fallback).
    pub fn new(buffer: Vec<u8>) -> (r: Result<Request, ProtocolError>)
        ensures
            r is Ok <==> head_ok_of(buffer@),
            r matches Ok(req) ==> {
                &&& req.buffer == buffer
                &&& opt_text(req.method) == head_method_of(buffer@)
                &&& opt_text(req.path) == head_path_of(buffer@)
                &&& header_views(req.headers@) == head_headers_of(buffer@)
                &&& req.header_offset == if head_complete_of(buffer@) {
                    head_offset_of(buffer@)
                } else {
                    HEADER_CAPACITY as int
                }
                &&& req.header_offset <= buffer@.len() || req.header_offset
                    == HEADER_CAPACITY as int
            },
            r matches Err(e) ==> e matches ProtocolError::Malformed(_),
    {
        match parse_head(buffer.as_slice()) {
            Ok(head) => Ok(Request::from_head(head, buffer)),
            Err(e) => Err(ProtocolError::Malformed(head_error_cause(e))),
        }
    }

    /// The declared body length: the Content-Length header's value, parsed.
    pub open spec fn spec_body_length(&self) -> Result<int, BodyError> {
        match content_length_header(header_views(self.headers@)) {
            None => Err(BodyError::MissingLength),
            Some(v) => if !valid_utf8(v) {
                Err(BodyError::InvalidEncoding)
            } else if !is_length_number(v) {
                Err(BodyError::InvalidNumber)
            } else {
                Ok(dec_val(cl_digits(v)))
            },
        }
    }

    /// The body bytes the request declares: the slice of the declared length
    /// that follows the head.
    pub open spec fn spec_body(&self) -> Result<Seq<u8>, BodyError> {
        match self.spec_body_length() {
            Err(e) => Err(e),
            Ok(n) => if self.header_offset + n > self.buffer@.len() {
                Err(BodyError::OutOfRange)
            } else {
                Ok(self.buffer@.subrange(self.header_offset as int, self.header_offset + n))
            },
        }
    }

    /// Extracts the body bytes, with one distinct error for each way the
    /// Content-Length header can be missing or unusable, and an explicit
    /// bounds check in place of a fatal out-of-range slice.
    pub fn body(&self) -> (r: Result<Vec<u8>, BodyError>)
        ensures
            match r {
                Ok(b) => self.spec_body() == Ok::<Seq<u8>, BodyError>(b@),
                Err(e) => self.spec_body() == Err::<Seq<u8>, BodyError>(e),
            },
    {
        let value = match find_content_length(&self.headers) {
            None => {
                return Err(BodyError::MissingLength);
            },
            Some(v) => v,
        };
        if core::str::from_utf8(value.as_slice()).is_err() {
            return Err(BodyError::InvalidEncoding);
        }
        let n = match parse_length(value.as_slice()) {
            None => {
                return Err(BodyError::InvalidNumber);
            },
            Some(n) => n,
        };
        if n > self.buffer.len() || self.header_offset > self.buffer.len() - n {
            return Err(BodyError::OutOfRange);
        }
        let b = slice_to_vec(slice_subrange(self.buffer.as_slice(), self.header_offset, self.header_offset + n));
        Ok(b)
    }
}

} // verus!
