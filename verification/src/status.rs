//! Status codes with their fixed reason phrases, and the fault kinds a
//! header lookup can report.

use vstd::prelude::*;

verus! {

/// The closed set of status codes the core can send. The caller chooses the
/// code; there is no negotiation.
#[derive(Clone, Copy, PartialEq, Eq, Structural, Debug)]
pub enum HTTPCodes {
    OK,
    NoContent,
    BadRequest,
}

/// The status text of each code, as characters.
pub open spec fn status_text_spec(c: HTTPCodes) -> Seq<char> {
    match c {
        HTTPCodes::OK => "200 OK"@,
        HTTPCodes::NoContent => "204 No content"@,
        HTTPCodes::BadRequest => "400 Bad Request"@,
    }
}

/// The status text of each code, as the ASCII bytes that go on the wire.
pub open spec fn status_bytes_spec(c: HTTPCodes) -> Seq<u8> {
    match c {
        HTTPCodes::OK => seq![50u8, 48, 48, 32, 79, 75],
        HTTPCodes::NoContent => seq![50u8, 48, 52, 32, 78, 111, 32, 99, 111, 110, 116, 101, 110, 116],
        HTTPCodes::BadRequest => seq![
            52u8, 48, 48, 32, 66, 97, 100, 32, 82, 101, 113, 117, 101, 115, 116,
        ],
    }
}

impl HTTPCodes {
    pub fn as_str(&self) -> (r: &'static str)
        ensures
            r@ == status_text_spec(*self),
    {
        match self {
            HTTPCodes::OK => "200 OK",
            HTTPCodes::NoContent => "204 No content",
            HTTPCodes::BadRequest => "400 Bad Request",
        }
    }

    pub fn status_bytes(&self) -> (r: Vec<u8>)
        ensures
            r@ == status_bytes_spec(*self),
    {
        match self {
            HTTPCodes::OK => {
                let v: Vec<u8> = vec![50, 48, 48, 32, 79, 75];
                proof {
                    assert(v@ =~= status_bytes_spec(*self));
                }
                v
            },
            HTTPCodes::NoContent => {
                let v: Vec<u8> = vec![50, 48, 52, 32, 78, 111, 32, 99, 111, 110, 116, 101, 110, 116];
                proof {
                    assert(v@ =~= status_bytes_spec(*self));
                }
                v
            },
            HTTPCodes::BadRequest => {
                let v: Vec<u8> = vec![
                    52, 48, 48, 32, 66, 97, 100, 32, 82, 101, 113, 117, 101, 115, 116,
                ];
                proof {
                    assert(v@ =~= status_bytes_spec(*self));
                }
                v
            },
        }
    }
}

/// Faults a header lookup can report. `ParsingError` marks a header that is
/// absent entirely; `MissingHeader` marks one that is present but whose value
/// does not read as a non-negative integer; `Unknown` is a reserved
/// catch-all that nothing currently produces.
#[derive(Debug, PartialEq, Eq)]
pub enum HTTPError {
    ParsingError { header: Vec<u8> },
    MissingHeader { header: Vec<u8> },
    Unknown,
}

} // verus!
