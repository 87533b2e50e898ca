//! The fixed byte strings of the wire format: line terminator, separators,
//! the protocol prefix, and the header names and values the core reads or
//! injects. Each constant exists as a specification sequence and as an
//! executable vector proved equal to it.

use vstd::prelude::*;

verus! {

/// "\r\n"
pub open spec fn crlf_spec() -> Seq<u8> {
    seq![13u8, 10]
}

/// ": " — the name/value separator of a header line.
pub open spec fn colon_space_spec() -> Seq<u8> {
    seq![58u8, 32]
}

/// " " — the token separator of the request line.
pub open spec fn space_spec() -> Seq<u8> {
    seq![32u8]
}

/// "HTTP/1.1 " — the prefix of every status line.
pub open spec fn http11_prefix_spec() -> Seq<u8> {
    seq![72u8, 84, 84, 80, 47, 49, 46, 49, 32]
}

/// "Content-Length"
pub open spec fn content_length_name() -> Seq<u8> {
    seq![67u8, 111, 110, 116, 101, 110, 116, 45, 76, 101, 110, 103, 116, 104]
}

/// "Content-Type"
pub open spec fn content_type_name() -> Seq<u8> {
    seq![67u8, 111, 110, 116, 101, 110, 116, 45, 84, 121, 112, 101]
}

/// "Connection"
pub open spec fn connection_name() -> Seq<u8> {
    seq![67u8, 111, 110, 110, 101, 99, 116, 105, 111, 110]
}

/// "text/html; charset=utf-8" — the fixed content type of every response.
pub open spec fn default_content_type() -> Seq<u8> {
    seq![
        116u8, 101, 120, 116, 47, 104, 116, 109, 108, 59, 32, 99, 104, 97, 114, 115, 101, 116, 61,
        117, 116, 102, 45, 56,
    ]
}

/// "keep-alive"
pub open spec fn keep_alive_value() -> Seq<u8> {
    seq![107u8, 101, 101, 112, 45, 97, 108, 105, 118, 101]
}

/// "close"
pub open spec fn close_value() -> Seq<u8> {
    seq![99u8, 108, 111, 115, 101]
}

pub fn crlf() -> (r: Vec<u8>)
    ensures
        r@ == crlf_spec(),
{
    let v: Vec<u8> = vec![13, 10];
    proof {
        assert(v@ =~= crlf_spec());
    }
    v
}

pub fn colon_space() -> (r: Vec<u8>)
    ensures
        r@ == colon_space_spec(),
{
    let v: Vec<u8> = vec![58, 32];
    proof {
        assert(v@ =~= colon_space_spec());
    }
    v
}

pub fn space() -> (r: Vec<u8>)
    ensures
        r@ == space_spec(),
{
    let v: Vec<u8> = vec![32];
    proof {
        assert(v@ =~= space_spec());
    }
    v
}

pub fn http11_prefix() -> (r: Vec<u8>)
    ensures
        r@ == http11_prefix_spec(),
{
    let v: Vec<u8> = vec![72, 84, 84, 80, 47, 49, 46, 49, 32];
    proof {
        assert(v@ =~= http11_prefix_spec());
    }
    v
}

pub fn content_length_key() -> (r: Vec<u8>)
    ensures
        r@ == content_length_name(),
{
    let v: Vec<u8> = vec![67, 111, 110, 116, 101, 110, 116, 45, 76, 101, 110, 103, 116, 104];
    proof {
        assert(v@ =~= content_length_name());
    }
    v
}

pub fn content_type_key() -> (r: Vec<u8>)
    ensures
        r@ == content_type_name(),
{
    let v: Vec<u8> = vec![67, 111, 110, 116, 101, 110, 116, 45, 84, 121, 112, 101];
    proof {
        assert(v@ =~= content_type_name());
    }
    v
}

pub fn connection_key() -> (r: Vec<u8>)
    ensures
        r@ == connection_name(),
{
    let v: Vec<u8> = vec![67, 111, 110, 110, 101, 99, 116, 105, 111, 110];
    proof {
        assert(v@ =~= connection_name());
    }
    v
}

pub fn default_content_type_value() -> (r: Vec<u8>)
    ensures
        r@ == default_content_type(),
{
    let v: Vec<u8> = vec![
        116, 101, 120, 116, 47, 104, 116, 109, 108, 59, 32, 99, 104, 97, 114, 115, 101, 116, 61,
        117, 116, 102, 45, 56,
    ];
    proof {
        assert(v@ =~= default_content_type());
    }
    v
}

pub fn keep_alive_bytes() -> (r: Vec<u8>)
    ensures
        r@ == keep_alive_value(),
{
    let v: Vec<u8> = vec![107, 101, 101, 112, 45, 97, 108, 105, 118, 101];
    proof {
        assert(v@ =~= keep_alive_value());
    }
    v
}

pub fn close_bytes() -> (r: Vec<u8>)
    ensures
        r@ == close_value(),
{
    let v: Vec<u8> = vec![99, 108, 111, 115, 101];
    proof {
        assert(v@ =~= close_value());
    }
    v
}

} // verus!
