//! The core's general guarantees, each stated and proved over the
//! specification-level machine: case-insensitive header lookup, body
//! handling, the fate of malformed input, persistence of well-behaved
//! connections, the close header, and the serialize/re-parse round trip.

use vstd::prelude::*;
use crate::bytes::dec_repr_spec;
use crate::bytes::is_match_at;
use crate::bytes::lemma_dec_repr;
use crate::bytes::lemma_find_spec_at;
use crate::bytes::lemma_find_spec_none;
use crate::bytes::lower_spec;
use crate::bytes::split_spec;
use crate::bytes::strip_crlf_spec;
use crate::driver::bad_request_bytes_spec;
use crate::driver::declared_body_len_spec;
use crate::driver::header_line_spec;
use crate::driver::is_connection_close;
use crate::driver::parse_request_line_spec;
use crate::driver::respond_model;
use crate::driver::response_bytes_spec;
use crate::driver::step_model;
use crate::driver::EventModel;
use crate::driver::RequestModel;
use crate::driver::StateModel;
use crate::headers::add_spec;
use crate::headers::lemma_add_lookup;
use crate::headers::lemma_add_wf;
use crate::headers::lemma_first_match_none;
use crate::headers::lookup_spec;
use crate::headers::wf_headers;
use crate::response::render_header_spec;
use crate::response::response_headers_spec;
use crate::wire::colon_space_spec;
use crate::wire::content_length_name;
use crate::wire::space_spec;

verus! {

// ---------------------------------------------------------------------------
// Runs of the driver
// ---------------------------------------------------------------------------

/// The driver fed a whole sequence of events: the final state and every
/// response emitted along the way, in order.
pub open spec fn run_model(s: StateModel, events: Seq<EventModel>) -> (StateModel, Seq<Seq<u8>>)
    decreases events.len(),
{
    if events.len() == 0 {
        (s, Seq::empty())
    } else {
        let first = step_model(s, events[0]);
        let rest = run_model(first.0, events.drop_first());
        (
            rest.0,
            match first.1 {
                Some(b) => seq![b] + rest.1,
                None => rest.1,
            },
        )
    }
}

/// A closed connection stays closed and says nothing more.
pub proof fn lemma_closed_absorbs(events: Seq<EventModel>)
    ensures
        run_model(StateModel::Closed, events) == (
            StateModel::Closed,
            Seq::<Seq<u8>>::empty(),
        ),
    decreases events.len(),
{
    if events.len() > 0 {
        lemma_closed_absorbs(events.drop_first());
    }
}

/// Runs compose: feeding two event sequences in turn is one run whose
/// responses are the two response sequences in turn.
pub proof fn lemma_run_append(s: StateModel, a: Seq<EventModel>, b: Seq<EventModel>)
    ensures
        run_model(s, a + b).0 == run_model(run_model(s, a).0, b).0,
        run_model(s, a + b).1 == run_model(s, a).1 + run_model(run_model(s, a).0, b).1,
    decreases a.len(),
{
    if a.len() == 0 {
        assert(a + b =~= b);
        assert(run_model(s, a).1 + run_model(run_model(s, a).0, b).1 =~= run_model(s, b).1);
    } else {
        let s1 = step_model(s, a[0]).0;
        let a1 = a.drop_first();
        lemma_run_append(s1, a1, b);
        assert((a + b).drop_first() =~= a1 + b);
        assert((a + b)[0] == a[0]);
        match step_model(s, a[0]).1 {
            Some(o) => {
                assert(seq![o] + (run_model(s1, a1).1 + run_model(run_model(s1, a1).0, b).1)
                    =~= (seq![o] + run_model(s1, a1).1) + run_model(run_model(s1, a1).0, b).1);
            },
            None => {},
        }
    }
}

// ---------------------------------------------------------------------------
// Header lookup is case-insensitive
// ---------------------------------------------------------------------------

/// After storing a value under one spelling of a name, a lookup under any
/// spelling with the same letters up to ASCII case returns that value.
pub proof fn lemma_add_get_case_insensitive(
    m: Seq<(Seq<u8>, Seq<u8>)>,
    n1: Seq<u8>,
    n2: Seq<u8>,
    v: Seq<u8>,
)
    requires
        lower_spec(n1) == lower_spec(n2),
    ensures
        lookup_spec(add_spec(m, n1, v), lower_spec(n2)) == Some(v),
{
    lemma_add_lookup(m, n1, v, lower_spec(n2));
}

// ---------------------------------------------------------------------------
// The declared body length governs the body
// ---------------------------------------------------------------------------

/// The request a step hands to the response stage, when that step completes
/// one: the table's request at a blank line with no declared length, or the
/// request with its body attached once the declared bytes arrive.
pub open spec fn completed_request_model(s: StateModel, e: EventModel) -> Option<RequestModel> {
    match s {
        StateModel::ReadingHeaders { req } => match e {
            EventModel::Line { bytes } => if bytes.len() <= 2 && declared_body_len_spec(
                req.headers,
            ) is None {
                Some(req)
            } else {
                None
            },
            _ => None,
        },
        StateModel::ReadingBody { req, len } => match e {
            EventModel::BodyBytes { bytes } => if bytes.len() == len {
                Some(RequestModel { body: bytes, ..req })
            } else {
                None
            },
            _ => None,
        },
        _ => None,
    }
}

/// Whenever a step completes a request, the step responds for exactly that
/// request.
pub proof fn lemma_completed_request_responds(s: StateModel, e: EventModel)
    requires
        completed_request_model(s, e) is Some,
    ensures
        step_model(s, e) == respond_model(completed_request_model(s, e).unwrap()),
{
}

/// A header table whose `Content-Length` entry carries the numeral of `l`
/// declares a body of exactly `l` bytes.
pub proof fn lemma_declared_length_round_trip(m: Seq<(Seq<u8>, Seq<u8>)>, l: nat)
    requires
        l <= usize::MAX,
        lookup_spec(m, lower_spec(content_length_name())) == Some(dec_repr_spec(l)),
    ensures
        declared_body_len_spec(m) == Some(l),
{
    lemma_dec_repr(l);
}

/// With a declared length `l`, the blank line moves the driver to the body
/// state for exactly `l` bytes, and a body chunk of exactly `l` bytes
/// completes the request with that chunk — same length, same content — as
/// its body.
pub proof fn lemma_declared_body_is_read(
    req: RequestModel,
    l: nat,
    blank: Seq<u8>,
    body: Seq<u8>,
)
    requires
        l <= usize::MAX,
        lookup_spec(req.headers, lower_spec(content_length_name())) == Some(dec_repr_spec(l)),
        blank.len() <= 2,
        body.len() == l,
    ensures
        step_model(StateModel::ReadingHeaders { req }, EventModel::Line { bytes: blank }) == (
            StateModel::ReadingBody { req, len: l },
            None::<Seq<u8>>,
        ),
        completed_request_model(
            StateModel::ReadingBody { req, len: l },
            EventModel::BodyBytes { bytes: body },
        ) == Some(RequestModel { body, ..req }),
{
    lemma_declared_length_round_trip(req.headers, l);
}

/// Header lines assembled one after the other.
pub open spec fn apply_header_lines(req: RequestModel, lines: Seq<Seq<u8>>) -> RequestModel
    decreases lines.len(),
{
    if lines.len() == 0 {
        req
    } else {
        apply_header_lines(header_line_spec(req, lines[0]), lines.drop_first())
    }
}

/// Header lines touch only the table and the keep-alive flag.
pub proof fn lemma_header_lines_keep_body(req: RequestModel, lines: Seq<Seq<u8>>)
    ensures
        apply_header_lines(req, lines).body == req.body,
        apply_header_lines(req, lines).method == req.method,
        apply_header_lines(req, lines).path == req.path,
        apply_header_lines(req, lines).version == req.version,
    decreases lines.len(),
{
    if lines.len() > 0 {
        lemma_header_lines_keep_body(header_line_spec(req, lines[0]), lines.drop_first());
    }
}

/// A request whose headers declare no body length completes at the blank
/// line with an empty body, whatever header lines preceded it.
pub proof fn lemma_no_declared_length_empty_body(
    line: Seq<u8>,
    hlines: Seq<Seq<u8>>,
    blank: Seq<u8>,
)
    requires
        parse_request_line_spec(line) is Some,
        blank.len() <= 2,
    ensures
        ({
            let req = apply_header_lines(parse_request_line_spec(line).unwrap(), hlines);
            declared_body_len_spec(req.headers) is None ==> completed_request_model(
                StateModel::ReadingHeaders { req },
                EventModel::Line { bytes: blank },
            ) == Some(req) && req.body == Seq::<u8>::empty()
        }),
{
    lemma_header_lines_keep_body(parse_request_line_spec(line).unwrap(), hlines);
}

// ---------------------------------------------------------------------------
// A malformed request line: one response, then closed
// ---------------------------------------------------------------------------

/// A first line that does not split into exactly three space-separated
/// tokens draws exactly one bad-request response; nothing that follows on
/// the connection is processed.
pub proof fn lemma_bad_request_line_closes(line: Seq<u8>, rest: Seq<EventModel>)
    requires
        line.len() > 0,
        split_spec(strip_crlf_spec(line), space_spec()).len() != 3,
    ensures
        run_model(StateModel::AwaitingRequest, seq![EventModel::Line { bytes: line }] + rest) == (
            StateModel::Closed,
            seq![bad_request_bytes_spec()],
        ),
{
    let e = EventModel::Line { bytes: line };
    let events = seq![e] + rest;
    assert(events[0] == e);
    assert(events.drop_first() =~= rest);
    lemma_closed_absorbs(rest);
    assert(seq![bad_request_bytes_spec()] + Seq::<Seq<u8>>::empty() =~= seq![
        bad_request_bytes_spec(),
    ]);
}

// ---------------------------------------------------------------------------
// Two well-formed requests keep the connection open
// ---------------------------------------------------------------------------

/// Whatever exchange brings the driver from awaiting a request back to
/// awaiting a request with one response, doing it twice in sequence yields
/// both responses and leaves the connection open.
pub proof fn lemma_two_requests_two_responses(
    es1: Seq<EventModel>,
    es2: Seq<EventModel>,
    r1: Seq<u8>,
    r2: Seq<u8>,
)
    requires
        run_model(StateModel::AwaitingRequest, es1) == (
            StateModel::AwaitingRequest,
            seq![r1],
        ),
        run_model(StateModel::AwaitingRequest, es2) == (
            StateModel::AwaitingRequest,
            seq![r2],
        ),
    ensures
        run_model(StateModel::AwaitingRequest, es1 + es2) == (
            StateModel::AwaitingRequest,
            seq![r1, r2],
        ),
{
    lemma_run_append(StateModel::AwaitingRequest, es1, es2);
    assert(seq![r1] + seq![r2] =~= seq![r1, r2]);
}

// ---------------------------------------------------------------------------
// Connection: close
// ---------------------------------------------------------------------------

/// The driver has seen `Connection: close` for the request in flight.
pub open spec fn committed_to_close(s: StateModel) -> bool {
    match s {
        StateModel::ReadingHeaders { req } => !req.keep_alive,
        StateModel::ReadingBody { req, .. } => !req.keep_alive,
        _ => false,
    }
}

/// A header line carrying `Connection: close` (under any spelling of the
/// name) clears the keep-alive flag.
pub proof fn lemma_close_header_commits(req: RequestModel, line: Seq<u8>)
    requires
        ({
            let parts = split_spec(strip_crlf_spec(line), colon_space_spec());
            parts.len() == 2 && is_connection_close(parts[0], parts[1])
        }),
    ensures
        !header_line_spec(req, line).keep_alive,
{
}

/// No later header line — whatever it says — restores keep-alive.
pub proof fn lemma_close_is_permanent(req: RequestModel, line: Seq<u8>)
    requires
        !req.keep_alive,
    ensures
        !header_line_spec(req, line).keep_alive,
{
}

/// Once the request in flight has asked to close, the rest of the
/// connection emits at most one response — the closing one — and never
/// returns to awaiting a request.
pub proof fn lemma_committed_close_one_response(s: StateModel, events: Seq<EventModel>)
    requires
        committed_to_close(s),
    ensures
        run_model(s, events).1.len() <= 1,
        run_model(s, events).1.len() == 1 ==> run_model(s, events).1[0] == response_bytes_spec(
            false,
        ),
        run_model(s, events).0 is Closed || committed_to_close(run_model(s, events).0),
    decreases events.len(),
{
    if events.len() > 0 {
        let s1 = step_model(s, events[0]).0;
        let o = step_model(s, events[0]).1;
        let rest = events.drop_first();
        match o {
            Some(b) => {
                assert(b == response_bytes_spec(false));
                assert(s1 is Closed);
                lemma_closed_absorbs(rest);
                assert(seq![b] + Seq::<Seq<u8>>::empty() =~= seq![b]);
            },
            None => {
                if s1 is Closed {
                    lemma_closed_absorbs(rest);
                } else {
                    lemma_committed_close_one_response(s1, rest);
                }
            },
        }
    }
}

// ---------------------------------------------------------------------------
// Serialize, then re-parse: the round trip
// ---------------------------------------------------------------------------

/// The header lines a table serializes to, one per entry.
pub open spec fn header_lines_of(m: Seq<(Seq<u8>, Seq<u8>)>) -> Seq<Seq<u8>> {
    m.map_values(|e: (Seq<u8>, Seq<u8>)| render_header_spec(e))
}

/// Lines laid end to end.
pub open spec fn concat_lines(lines: Seq<Seq<u8>>) -> Seq<u8>
    decreases lines.len(),
{
    if lines.len() == 0 {
        Seq::empty()
    } else {
        lines[0] + concat_lines(lines.drop_first())
    }
}

/// The serializer's header block is exactly those lines laid end to end.
pub proof fn lemma_render_is_line_concat(m: Seq<(Seq<u8>, Seq<u8>)>)
    ensures
        crate::response::render_headers_spec(m) == concat_lines(header_lines_of(m)),
    decreases m.len(),
{
    if m.len() > 0 {
        lemma_render_is_line_concat(m.drop_first());
        assert(header_lines_of(m).drop_first() =~= header_lines_of(m.drop_first()));
        assert(header_lines_of(m)[0] == render_header_spec(m[0]));
    } else {
        assert(header_lines_of(m) =~= Seq::<Seq<u8>>::empty());
    }
}

/// An entry that survives the line format: the name holds no colon, the
/// value no ": " occurrence.
pub open spec fn line_safe_entry(e: (Seq<u8>, Seq<u8>)) -> bool {
    (forall|i: int| 0 <= i < e.0.len() ==> #[trigger] e.0[i] != 58) && (forall|j: int|
        !is_match_at(e.1, colon_space_spec(), j))
}

pub open spec fn line_safe(m: Seq<(Seq<u8>, Seq<u8>)>) -> bool {
    forall|i: int| 0 <= i < m.len() ==> #[trigger] line_safe_entry(m[i])
}

/// One serialized header line parses back to exactly its entry.
pub proof fn lemma_header_line_round_trip(req: RequestModel, e: (Seq<u8>, Seq<u8>))
    requires
        line_safe_entry(e),
    ensures
        header_line_spec(req, render_header_spec(e)) == (RequestModel {
            headers: add_spec(req.headers, e.0, e.1),
            keep_alive: req.keep_alive && !is_connection_close(e.0, e.1),
            ..req
        }),
{
    let line = render_header_spec(e);
    let nlen = e.0.len() as int;
    assert(line.len() == e.0.len() + 2 + e.1.len() + 2);
    assert(line[line.len() - 2] == 13);
    assert(line[line.len() - 1] == 10);
    let t = strip_crlf_spec(line);
    assert(t =~= e.0 + colon_space_spec() + e.1);
    assert(t.subrange(nlen, nlen + 2) =~= colon_space_spec());
    assert(is_match_at(t, colon_space_spec(), nlen));
    assert forall|j: int| 0 <= j < nlen implies !is_match_at(t, colon_space_spec(), j) by {
        if is_match_at(t, colon_space_spec(), j) {
            assert(t.subrange(j, j + 2)[0] == t[j]);
            assert(t[j] == 58);
            assert(t[j] == e.0[j]);
        }
    }
    lemma_find_spec_at(t, colon_space_spec(), nlen);
    assert(t.subrange(0, nlen) =~= e.0);
    assert(t.subrange(nlen + 2, t.len() as int) =~= e.1);
    lemma_find_spec_none(e.1, colon_space_spec());
    assert(split_spec(e.1, colon_space_spec()) == seq![e.1]);
    assert(split_spec(t, colon_space_spec()) =~= seq![e.0, e.1]);
}

/// Serialized entries re-read in order extend a table they are disjoint
/// from, entry for entry.
pub proof fn lemma_table_round_trip(req: RequestModel, m: Seq<(Seq<u8>, Seq<u8>)>)
    requires
        wf_headers(req.headers + m),
        line_safe(m),
    ensures
        apply_header_lines(req, header_lines_of(m)).headers == req.headers + m,
    decreases m.len(),
{
    if m.len() == 0 {
        assert(header_lines_of(m) =~= Seq::<Seq<u8>>::empty());
        assert(req.headers + m =~= req.headers);
    } else {
        let e = m[0];
        assert(line_safe_entry(m[0]));
        lemma_header_line_round_trip(req, e);
        let req1 = header_line_spec(req, render_header_spec(e));
        assert forall|j: int| 0 <= j < req.headers.len() implies lower_spec(
            #[trigger] req.headers[j].0,
        ) != lower_spec(e.0) by {
            assert((req.headers + m)[j] == req.headers[j]);
            assert((req.headers + m)[req.headers.len() as int] == e);
        }
        lemma_first_match_none(req.headers, lower_spec(e.0));
        assert(e == (e.0, e.1));
        assert(req1.headers =~= req.headers.push(e));
        assert(req.headers.push(e) + m.drop_first() =~= req.headers + m);
        assert(line_safe(m.drop_first())) by {
            assert forall|i: int| 0 <= i < m.drop_first().len() implies #[trigger] line_safe_entry(
                m.drop_first()[i],
            ) by {
                assert(m.drop_first()[i] == m[i + 1]);
                assert(line_safe_entry(m[i + 1]));
            }
        }
        lemma_table_round_trip(req1, m.drop_first());
        assert(header_lines_of(m).drop_first() =~= header_lines_of(m.drop_first()));
        assert(header_lines_of(m)[0] == render_header_spec(e));
    }
}

/// The three headers the serializer writes leave a well-formed table
/// well-formed.
pub proof fn lemma_response_headers_wf(m: Seq<(Seq<u8>, Seq<u8>)>, body_len: nat, keep_alive: bool)
    requires
        wf_headers(m),
    ensures
        wf_headers(response_headers_spec(m, body_len, keep_alive)),
{
    lemma_add_wf(m, content_length_name(), dec_repr_spec(body_len));
    lemma_add_wf(
        add_spec(m, content_length_name(), dec_repr_spec(body_len)),
        crate::wire::content_type_name(),
        crate::wire::default_content_type(),
    );
    lemma_add_wf(
        add_spec(
            add_spec(m, content_length_name(), dec_repr_spec(body_len)),
            crate::wire::content_type_name(),
            crate::wire::default_content_type(),
        ),
        crate::wire::connection_name(),
        if keep_alive {
            crate::wire::keep_alive_value()
        } else {
            crate::wire::close_value()
        },
    );
}

/// Round trip: a well-formed table whose entries survive the line format,
/// serialized to header lines and fed back through the parser's header
/// stage onto an empty table, comes back as the very same table. Applied to
/// the table the serializer actually writes — the caller's entries with the
/// three server-owned headers overwritten — this is the serializer/parser
/// round trip.
pub proof fn lemma_serialize_reparse(req: RequestModel, m: Seq<(Seq<u8>, Seq<u8>)>)
    requires
        req.headers == Seq::<(Seq<u8>, Seq<u8>)>::empty(),
        wf_headers(m),
        line_safe(m),
    ensures
        apply_header_lines(req, header_lines_of(m)).headers == m,
{
    assert(req.headers + m =~= m);
    lemma_table_round_trip(req, m);
}

} // verus!
