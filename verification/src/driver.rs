//! The request parser and connection driver, as a pure state machine. The
//! surrounding program performs one read or write per step and feeds the
//! outcome back as an event; every decision — request-line validation,
//! header handling, keep-alive, body length — is made here and verified
//! against the specification-level transition function `step_model`.

use vstd::prelude::*;
use crate::bytes::bytes_eq;
use crate::bytes::dec_value_spec;
use crate::bytes::is_dec_digits;
use crate::bytes::lower_bytes;
use crate::bytes::lower_spec;
use crate::bytes::split_bytes;
use crate::bytes::split_spec;
use crate::bytes::strip_crlf;
use crate::bytes::strip_crlf_spec;
use crate::headers::add_spec;
use crate::headers::lookup_spec;
use crate::headers::wf_headers;
use crate::headers::Headers;
use crate::response::render_response;
use crate::response::render_response_spec;
use crate::response::response_headers_spec;
use crate::status::HTTPCodes;
use crate::wire::colon_space;
use crate::wire::colon_space_spec;
use crate::wire::connection_key;
use crate::wire::connection_name;
use crate::wire::close_bytes;
use crate::wire::close_value;
use crate::wire::content_length_name;
use crate::wire::space;
use crate::wire::space_spec;

verus! {

/// A parsed request.
#[derive(Debug)]
pub struct Request {
    pub method: Vec<u8>,
    pub path: Vec<u8>,
    pub version: Vec<u8>,
    pub headers: Headers,
    pub body: Vec<u8>,
    pub keep_alive: bool,
}

/// The mathematical value of a request.
pub struct RequestModel {
    pub method: Seq<u8>,
    pub path: Seq<u8>,
    pub version: Seq<u8>,
    pub headers: Seq<(Seq<u8>, Seq<u8>)>,
    pub body: Seq<u8>,
    pub keep_alive: bool,
}

impl View for Request {
    type V = RequestModel;

    open spec fn view(&self) -> RequestModel {
        RequestModel {
            method: self.method@,
            path: self.path@,
            version: self.version@,
            headers: self.headers@,
            body: self.body@,
            keep_alive: self.keep_alive,
        }
    }
}

/// Where the driver stands on one connection.
#[derive(Debug)]
pub enum DriverState {
    AwaitingRequest,
    ReadingHeaders { req: Request },
    ReadingBody { req: Request, len: usize },
    Closed,
}

/// The mathematical value of a driver state.
pub enum StateModel {
    AwaitingRequest,
    ReadingHeaders { req: RequestModel },
    ReadingBody { req: RequestModel, len: nat },
    Closed,
}

impl View for DriverState {
    type V = StateModel;

    open spec fn view(&self) -> StateModel {
        match self {
            DriverState::AwaitingRequest => StateModel::AwaitingRequest,
            DriverState::ReadingHeaders { req } => StateModel::ReadingHeaders { req: req@ },
            DriverState::ReadingBody { req, len } => StateModel::ReadingBody {
                req: req@,
                len: *len as nat,
            },
            DriverState::Closed => StateModel::Closed,
        }
    }
}

/// What one read produced: a line-terminated chunk (empty means the peer
/// closed), a body chunk of however many bytes arrived, or a transport
/// fault.
#[derive(Debug)]
pub enum Event {
    Line { bytes: Vec<u8> },
    BodyBytes { bytes: Vec<u8> },
    ReadFailed,
}

/// The mathematical value of an event.
pub enum EventModel {
    Line { bytes: Seq<u8> },
    BodyBytes { bytes: Seq<u8> },
    ReadFailed,
}

impl View for Event {
    type V = EventModel;

    open spec fn view(&self) -> EventModel {
        match self {
            Event::Line { bytes } => EventModel::Line { bytes: bytes@ },
            Event::BodyBytes { bytes } => EventModel::BodyBytes { bytes: bytes@ },
            Event::ReadFailed => EventModel::ReadFailed,
        }
    }
}

// ---------------------------------------------------------------------------
// The specification-level machine
// ---------------------------------------------------------------------------

/// The request line split into its space-separated tokens, terminator
/// stripped. Exactly three tokens make a request.
pub open spec fn parse_request_line_spec(line: Seq<u8>) -> Option<RequestModel> {
    let parts = split_spec(strip_crlf_spec(line), space_spec());
    if parts.len() == 3 {
        Some(
            RequestModel {
                method: parts[0],
                path: parts[1],
                version: parts[2],
                headers: Seq::empty(),
                body: Seq::empty(),
                keep_alive: true,
            },
        )
    } else {
        None
    }
}

/// A `Connection: close` header, the name compared without regard to case.
pub open spec fn is_connection_close(name: Seq<u8>, value: Seq<u8>) -> bool {
    lower_spec(name) == lower_spec(connection_name()) && value == close_value()
}

/// One header line applied to a request: split on the first ": "; exactly
/// two parts store the header (and a `Connection: close` clears keep-alive
/// for good); any other split count drops the line.
pub open spec fn header_line_spec(req: RequestModel, line: Seq<u8>) -> RequestModel {
    let parts = split_spec(strip_crlf_spec(line), colon_space_spec());
    if parts.len() == 2 {
        RequestModel {
            headers: add_spec(req.headers, parts[0], parts[1]),
            keep_alive: req.keep_alive && !is_connection_close(parts[0], parts[1]),
            ..req
        }
    } else {
        req
    }
}

/// The body length a header table declares: the `Content-Length` value when
/// it reads as a non-negative integer that fits the machine; absent or
/// unreadable means no declared body.
pub open spec fn declared_body_len_spec(m: Seq<(Seq<u8>, Seq<u8>)>) -> Option<nat> {
    match lookup_spec(m, lower_spec(content_length_name())) {
        Some(v) => if is_dec_digits(v) && dec_value_spec(v) <= usize::MAX {
            Some(dec_value_spec(v))
        } else {
            None
        },
        None => None,
    }
}

/// The fixed no-content response the driver sends for every parsed request.
pub open spec fn response_bytes_spec(keep_alive: bool) -> Seq<u8> {
    render_response_spec(
        HTTPCodes::NoContent,
        response_headers_spec(Seq::empty(), 0, keep_alive),
        Seq::empty(),
    )
}

/// The response to a malformed request line or a failed first read.
pub open spec fn bad_request_bytes_spec() -> Seq<u8> {
    render_response_spec(
        HTTPCodes::BadRequest,
        response_headers_spec(Seq::empty(), 0, false),
        Seq::empty(),
    )
}

/// Sending the response for a completed request: the connection stays open
/// exactly when the request kept keep-alive.
pub open spec fn respond_model(req: RequestModel) -> (StateModel, Option<Seq<u8>>) {
    (
        if req.keep_alive {
            StateModel::AwaitingRequest
        } else {
            StateModel::Closed
        },
        Some(response_bytes_spec(req.keep_alive)),
    )
}

/// One transition of the connection driver.
pub open spec fn step_model(s: StateModel, e: EventModel) -> (StateModel, Option<Seq<u8>>) {
    match s {
        StateModel::Closed => (StateModel::Closed, None),
        StateModel::AwaitingRequest => match e {
            EventModel::Line { bytes } => if bytes.len() == 0 {
                (StateModel::Closed, None)
            } else {
                match parse_request_line_spec(bytes) {
                    Some(req) => (StateModel::ReadingHeaders { req }, None),
                    None => (StateModel::Closed, Some(bad_request_bytes_spec())),
                }
            },
            EventModel::ReadFailed => (StateModel::Closed, Some(bad_request_bytes_spec())),
            EventModel::BodyBytes { .. } => (StateModel::Closed, None),
        },
        StateModel::ReadingHeaders { req } => match e {
            EventModel::Line { bytes } => if bytes.len() <= 2 {
                match declared_body_len_spec(req.headers) {
                    Some(n) => (StateModel::ReadingBody { req, len: n }, None),
                    None => respond_model(req),
                }
            } else {
                (StateModel::ReadingHeaders { req: header_line_spec(req, bytes) }, None)
            },
            EventModel::ReadFailed => (StateModel::Closed, None),
            EventModel::BodyBytes { .. } => (StateModel::Closed, None),
        },
        StateModel::ReadingBody { req, len } => match e {
            EventModel::BodyBytes { bytes } => if bytes.len() == len {
                respond_model(RequestModel { body: bytes, ..req })
            } else {
                (StateModel::Closed, None)
            },
            EventModel::Line { .. } => (StateModel::Closed, None),
            EventModel::ReadFailed => (StateModel::Closed, None),
        },
    }
}

/// The states the driver can actually be in: any held request has a
/// well-formed header table.
pub open spec fn state_wf(s: StateModel) -> bool {
    match s {
        StateModel::AwaitingRequest => true,
        StateModel::ReadingHeaders { req } => wf_headers(req.headers),
        StateModel::ReadingBody { req, len } => wf_headers(req.headers) && len <= usize::MAX,
        StateModel::Closed => true,
    }
}

// ---------------------------------------------------------------------------
// The executable machine
// ---------------------------------------------------------------------------

/// Parses a request line into a fresh request; `None` when the token count
/// is not three.
fn parse_request_line(line: &Vec<u8>) -> (r: Option<Request>)
    ensures
        match r {
            Some(req) => parse_request_line_spec(line@) == Some(req@),
            None => parse_request_line_spec(line@) is None,
        },
{
    let stripped = strip_crlf(line);
    let sep = space();
    let mut parts = split_bytes(&stripped, &sep);
    let ghost pm = parts@.map_values(|t: Vec<u8>| t@);
    if parts.len() == 3 {
        let version = parts.pop().unwrap();
        let path = parts.pop().unwrap();
        let method = parts.pop().unwrap();
        proof {
            assert(pm[0] == method@);
            assert(pm[1] == path@);
            assert(pm[2] == version@);
        }
        let req = Request {
            method,
            path,
            version,
            headers: Headers::new(),
            body: Vec::new(),
            keep_alive: true,
        };
        proof {
            assert(req@.body =~= Seq::<u8>::empty());
            assert(parse_request_line_spec(line@) == Some(req@));
        }
        Some(req)
    } else {
        None
    }
}

/// Applies one header line to a request.
fn apply_header_line(req: Request, line: &Vec<u8>) -> (r: Request)
    requires
        wf_headers(req@.headers),
    ensures
        r@ == header_line_spec(req@, line@),
        wf_headers(r@.headers),
{
    let ghost req0 = req@;
    let stripped = strip_crlf(line);
    let sep = colon_space();
    let mut parts = split_bytes(&stripped, &sep);
    let ghost pm = parts@.map_values(|t: Vec<u8>| t@);
    if parts.len() == 2 {
        let value = parts.pop().unwrap();
        let name = parts.pop().unwrap();
        proof {
            assert(pm[0] == name@);
            assert(pm[1] == value@);
        }
        let close = {
            let name_lower = lower_bytes(&name);
            let connection_lower = lower_bytes(&connection_key());
            let close_word = close_bytes();
            bytes_eq(&name_lower, &connection_lower) && bytes_eq(&value, &close_word)
        };
        proof {
            assert(close == is_connection_close(name@, value@));
        }
        let mut req = req;
        req.keep_alive = req.keep_alive && !close;
        req.headers.add(name, value);
        proof {
            assert(req@ == header_line_spec(req0, line@));
        }
        req
    } else {
        req
    }
}

/// Builds the fixed no-content response for a completed request and decides
/// whether the connection stays open.
fn respond(req: &Request) -> (r: (DriverState, Option<Vec<u8>>))
    ensures
        r.0@ == respond_model(req@).0,
        match r.1 {
            Some(v) => respond_model(req@).1 == Some(v@),
            None => false,
        },
{
    let keep_alive = req.keep_alive;
    let empty_body: Vec<u8> = Vec::new();
    let bytes = render_response(HTTPCodes::NoContent, Headers::new(), keep_alive, &empty_body);
    proof {
        assert(empty_body@ =~= Seq::<u8>::empty());
        assert(bytes@ == response_bytes_spec(keep_alive));
    }
    (
        if keep_alive {
            DriverState::AwaitingRequest
        } else {
            DriverState::Closed
        },
        Some(bytes),
    )
}

/// The response to a malformed request line or a failed first read.
pub fn bad_request_response() -> (r: Vec<u8>)
    ensures
        r@ == bad_request_bytes_spec(),
{
    let empty_body: Vec<u8> = Vec::new();
    let bytes = render_response(HTTPCodes::BadRequest, Headers::new(), false, &empty_body);
    proof {
        assert(empty_body@ =~= Seq::<u8>::empty());
    }
    bytes
}

/// One step of the connection driver: the current state and the outcome of
/// the read the state called for go in; the next state and the bytes to
/// write, if any, come out. `Closed` is absorbing; reaching it ends the
/// connection.
pub fn step(state: DriverState, event: Event) -> (r: (DriverState, Option<Vec<u8>>))
    requires
        state_wf(state@),
    ensures
        r.0@ == step_model(state@, event@).0,
        match r.1 {
            Some(v) => step_model(state@, event@).1 == Some(v@),
            None => step_model(state@, event@).1 is None,
        },
        state_wf(r.0@),
{
    match state {
        DriverState::Closed => (DriverState::Closed, None),
        DriverState::AwaitingRequest => match event {
            Event::Line { bytes } => {
                if bytes.len() == 0 {
                    (DriverState::Closed, None)
                } else {
                    match parse_request_line(&bytes) {
                        Some(req) => (DriverState::ReadingHeaders { req }, None),
                        None => (DriverState::Closed, Some(bad_request_response())),
                    }
                }
            },
            Event::ReadFailed => (DriverState::Closed, Some(bad_request_response())),
            Event::BodyBytes { .. } => (DriverState::Closed, None),
        },
        DriverState::ReadingHeaders { req } => match event {
            Event::Line { bytes } => {
                if bytes.len() <= 2 {
                    match req.headers.get_content_length() {
                        Ok(n) => {
                            proof {
                                assert(declared_body_len_spec(req@.headers) == Some(n as nat));
                            }
                            (DriverState::ReadingBody { req, len: n }, None)
                        },
                        Err(_) => {
                            proof {
                                assert(declared_body_len_spec(req@.headers) is None);
                            }
                            respond(&req)
                        },
                    }
                } else {
                    let next = apply_header_line(req, &bytes);
                    (DriverState::ReadingHeaders { req: next }, None)
                }
            },
            Event::ReadFailed => (DriverState::Closed, None),
            Event::BodyBytes { .. } => (DriverState::Closed, None),
        },
        DriverState::ReadingBody { req, len } => match event {
            Event::BodyBytes { bytes } => {
                if bytes.len() == len {
                    let mut req = req;
                    req.body = bytes;
                    respond(&req)
                } else {
                    (DriverState::Closed, None)
                }
            },
            Event::Line { .. } => (DriverState::Closed, None),
            Event::ReadFailed => (DriverState::Closed, None),
        },
    }
}

} // verus!
