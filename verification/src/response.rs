//! The response serializer: injects the three server-owned headers and
//! renders status line, header lines, blank line and body into one byte
//! vector. Writing those bytes to the transport is the caller's affair.

use vstd::prelude::*;
use crate::bytes::append_bytes;
use crate::bytes::dec_bytes;
use crate::bytes::dec_repr_spec;
use crate::headers::add_spec;
use crate::headers::wf_headers;
use crate::headers::Headers;
use crate::status::status_bytes_spec;
use crate::status::HTTPCodes;
use crate::wire::colon_space;
use crate::wire::colon_space_spec;
use crate::wire::connection_key;
use crate::wire::connection_name;
use crate::wire::content_length_key;
use crate::wire::content_length_name;
use crate::wire::content_type_key;
use crate::wire::content_type_name;
use crate::wire::close_bytes;
use crate::wire::close_value;
use crate::wire::crlf;
use crate::wire::crlf_spec;
use crate::wire::default_content_type;
use crate::wire::default_content_type_value;
use crate::wire::http11_prefix;
use crate::wire::http11_prefix_spec;
use crate::wire::keep_alive_bytes;
use crate::wire::keep_alive_value;

verus! {

/// One rendered header line.
pub open spec fn render_header_spec(e: (Seq<u8>, Seq<u8>)) -> Seq<u8> {
    e.0 + colon_space_spec() + e.1 + crlf_spec()
}

/// The header block: one line per entry, in storage order.
pub open spec fn render_headers_spec(m: Seq<(Seq<u8>, Seq<u8>)>) -> Seq<u8>
    decreases m.len(),
{
    if m.len() == 0 {
        Seq::empty()
    } else {
        render_header_spec(m[0]) + render_headers_spec(m.drop_first())
    }
}

pub proof fn lemma_render_headers_snoc(m: Seq<(Seq<u8>, Seq<u8>)>, i: int)
    requires
        0 <= i < m.len(),
    ensures
        render_headers_spec(m.take(i + 1)) == render_headers_spec(m.take(i)) + render_header_spec(
            m[i],
        ),
    decreases i,
{
    if i == 0 {
        assert(m.take(1) =~= seq![m[0]]);
        assert(m.take(1).drop_first() =~= Seq::<(Seq<u8>, Seq<u8>)>::empty());
        assert(m.take(0) =~= Seq::<(Seq<u8>, Seq<u8>)>::empty());
        assert(render_headers_spec(Seq::<(Seq<u8>, Seq<u8>)>::empty()) == Seq::<u8>::empty());
        assert(render_headers_spec(m.take(1)) == render_header_spec(m[0]) + Seq::<u8>::empty());
        assert(render_header_spec(m[0]) + Seq::<u8>::empty() =~= Seq::<u8>::empty()
            + render_header_spec(m[0]));
    } else {
        let t = m.drop_first();
        lemma_render_headers_snoc(t, i - 1);
        assert(m.take(i + 1).drop_first() =~= t.take(i));
        assert(m.take(i).drop_first() =~= t.take(i - 1));
        assert(m.take(i + 1)[0] == m[0]);
        assert(m.take(i)[0] == m[0]);
        assert(t[i - 1] == m[i]);
        assert(render_header_spec(m[0]) + (render_headers_spec(t.take(i - 1))
            + render_header_spec(m[i])) =~= (render_header_spec(m[0]) + render_headers_spec(
            t.take(i - 1),
        )) + render_header_spec(m[i]));
    }
}

/// A whole response: status line, header block, blank line, body.
pub open spec fn render_response_spec(
    c: HTTPCodes,
    m: Seq<(Seq<u8>, Seq<u8>)>,
    body: Seq<u8>,
) -> Seq<u8> {
    http11_prefix_spec() + status_bytes_spec(c) + crlf_spec() + render_headers_spec(m)
        + crlf_spec() + body
}

/// The caller's table after the serializer's three unconditional writes:
/// `Content-Length` from the body, the fixed `Content-Type`, and
/// `Connection` from the keep-alive flag. Caller-supplied values for these
/// names are clobbered.
pub open spec fn response_headers_spec(
    m: Seq<(Seq<u8>, Seq<u8>)>,
    body_len: nat,
    keep_alive: bool,
) -> Seq<(Seq<u8>, Seq<u8>)> {
    add_spec(
        add_spec(
            add_spec(m, content_length_name(), dec_repr_spec(body_len)),
            content_type_name(),
            default_content_type(),
        ),
        connection_name(),
        if keep_alive {
            keep_alive_value()
        } else {
            close_value()
        },
    )
}

/// Renders the full response. The result is exactly the specification
/// rendering of the table with the three injected headers.
pub fn render_response(code: HTTPCodes, headers: Headers, keep_alive: bool, body: &Vec<u8>) -> (r:
    Vec<u8>)
    requires
        wf_headers(headers@),
    ensures
        r@ == render_response_spec(
            code,
            response_headers_spec(headers@, body@.len(), keep_alive),
            body@,
        ),
{
    let ghost m0 = headers@;
    let mut headers = headers;
    headers.add(content_length_key(), dec_bytes(body.len()));
    headers.add(content_type_key(), default_content_type_value());
    headers.add(
        connection_key(),
        if keep_alive {
            keep_alive_bytes()
        } else {
            close_bytes()
        },
    );
    let ghost m = headers@;
    proof {
        assert(m == response_headers_spec(m0, body@.len(), keep_alive));
    }
    let mut out: Vec<u8> = Vec::new();
    let prefix = http11_prefix();
    append_bytes(&mut out, &prefix);
    let code_bytes = code.status_bytes();
    append_bytes(&mut out, &code_bytes);
    let terminator = crlf();
    append_bytes(&mut out, &terminator);
    let ghost head = http11_prefix_spec() + status_bytes_spec(code) + crlf_spec();
    proof {
        assert(out@ =~= head);
        assert(m.take(0) =~= Seq::<(Seq<u8>, Seq<u8>)>::empty());
        assert(out@ + render_headers_spec(m.take(0)) =~= out@);
    }
    let entries = headers.iter();
    let n = entries.len();
    let separator = colon_space();
    let mut i: usize = 0;
    while i < n
        invariant
            i <= n,
            n == entries@.len(),
            entries@.map_values(|e: crate::headers::HeaderEntry| e@) == m,
            separator@ == colon_space_spec(),
            terminator@ == crlf_spec(),
            out@ == head + render_headers_spec(m.take(i as int)),
        decreases n - i,
    {
        append_bytes(&mut out, &entries[i].name);
        append_bytes(&mut out, &separator);
        append_bytes(&mut out, &entries[i].value);
        append_bytes(&mut out, &terminator);
        proof {
            lemma_render_headers_snoc(m, i as int);
            assert(m[i as int] == entries@[i as int]@);
            assert(out@ =~= head + render_headers_spec(m.take(i + 1)));
        }
        i = i + 1;
    }
    proof {
        assert(m.take(n as int) =~= m);
    }
    append_bytes(&mut out, &terminator);
    append_bytes(&mut out, body);
    proof {
        assert(out@ =~= render_response_spec(code, m, body@));
    }
    out
}

} // verus!
