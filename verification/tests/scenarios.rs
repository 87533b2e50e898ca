use http_core::driver::{step, DriverState, Event};
use http_core::headers::Headers;
use http_core::response::render_response;
use http_core::status::HTTPCodes;

fn line(s: &[u8]) -> Event {
    Event::Line { bytes: s.to_vec() }
}

fn body(s: &[u8]) -> Event {
    Event::BodyBytes { bytes: s.to_vec() }
}

/// Feeds one event and returns the pair.
fn advance(state: DriverState, event: Event) -> (DriverState, Option<Vec<u8>>) {
    step(state, event)
}

#[test]
fn fixed_response_bytes() {
    let out = render_response(HTTPCodes::NoContent, Headers::new(), true, &Vec::new());
    assert_eq!(
        out,
        b"HTTP/1.1 204 No content\r\nContent-Length: 0\r\nContent-Type: text/html; charset=utf-8\r\nConnection: keep-alive\r\n\r\n"
            .to_vec()
    );
}

#[test]
fn response_with_body_and_caller_headers() {
    let mut h = Headers::new();
    h.add(b"Host".to_vec(), b"example".to_vec());
    // A caller-supplied Content-Length is clobbered by the real body length.
    h.add(b"Content-Length".to_vec(), b"999".to_vec());
    let out = render_response(HTTPCodes::OK, h, false, &b"hi".to_vec());
    assert_eq!(
        out,
        b"HTTP/1.1 200 OK\r\nHost: example\r\nContent-Length: 2\r\nContent-Type: text/html; charset=utf-8\r\nConnection: close\r\n\r\nhi"
            .to_vec()
    );
}

#[test]
fn peer_close_before_request_sends_nothing() {
    let (state, out) = advance(DriverState::AwaitingRequest, line(b""));
    assert!(matches!(state, DriverState::Closed));
    assert!(out.is_none());
}

#[test]
fn read_fault_on_request_line_sends_bad_request() {
    let (state, out) = advance(DriverState::AwaitingRequest, Event::ReadFailed);
    assert!(matches!(state, DriverState::Closed));
    let out = out.unwrap();
    assert!(out.starts_with(b"HTTP/1.1 400 Bad Request\r\n"));
}

#[test]
fn bad_request_line_draws_one_response_then_closes() {
    // Two tokens, not three.
    let (state, out) = advance(DriverState::AwaitingRequest, line(b"GET /\r\n"));
    assert!(matches!(state, DriverState::Closed));
    let out = out.unwrap();
    assert_eq!(
        out,
        b"HTTP/1.1 400 Bad Request\r\nContent-Length: 0\r\nContent-Type: text/html; charset=utf-8\r\nConnection: close\r\n\r\n"
            .to_vec()
    );
    // Nothing after the close is processed.
    let (state, out) = advance(state, line(b"GET / HTTP/1.1\r\n"));
    assert!(matches!(state, DriverState::Closed));
    assert!(out.is_none());
}

#[test]
fn four_tokens_are_also_bad() {
    let (state, out) = advance(DriverState::AwaitingRequest, line(b"GET / HTTP/1.1 extra\r\n"));
    assert!(matches!(state, DriverState::Closed));
    assert!(out.unwrap().starts_with(b"HTTP/1.1 400 Bad Request\r\n"));
}

#[test]
fn request_line_fills_the_request() {
    let (state, out) = advance(DriverState::AwaitingRequest, line(b"GET /index HTTP/1.1\r\n"));
    assert!(out.is_none());
    match state {
        DriverState::ReadingHeaders { req } => {
            assert_eq!(req.method, b"GET".to_vec());
            assert_eq!(req.path, b"/index".to_vec());
            assert_eq!(req.version, b"HTTP/1.1".to_vec());
            assert!(req.keep_alive);
            assert!(req.body.is_empty());
        }
        _ => panic!("expected the header state"),
    }
}

/// Runs the events and collects every response; returns the final state too.
fn run(events: Vec<Event>) -> (DriverState, Vec<Vec<u8>>) {
    let mut state = DriverState::AwaitingRequest;
    let mut responses = Vec::new();
    for e in events {
        let (next, out) = step(state, e);
        state = next;
        if let Some(bytes) = out {
            responses.push(bytes);
        }
    }
    (state, responses)
}

#[test]
fn declared_length_reads_exactly_that_many_bytes() {
    let (state, _) = advance(DriverState::AwaitingRequest, line(b"POST /u HTTP/1.1\r\n"));
    let (state, _) = advance(state, line(b"Content-Length: 5\r\n"));
    let (state, out) = advance(state, line(b"\r\n"));
    assert!(out.is_none());
    match &state {
        DriverState::ReadingBody { req, len } => {
            assert_eq!(*len, 5);
            assert_eq!(req.headers.get(&b"content-length".to_vec()), Some(b"5".to_vec()));
        }
        _ => panic!("expected the body state"),
    }
    let (state, out) = advance(state, body(b"hello"));
    assert!(out.is_some());
    assert!(matches!(state, DriverState::AwaitingRequest));
}

#[test]
fn no_declared_length_means_no_body_read() {
    let (state, _) = advance(DriverState::AwaitingRequest, line(b"GET / HTTP/1.1\r\n"));
    let (state, out) = advance(state, line(b"\r\n"));
    // Straight to the response; the driver never asks for body bytes.
    assert!(out.is_some());
    assert!(matches!(state, DriverState::AwaitingRequest));
}

#[test]
fn short_body_read_is_fatal() {
    let (state, _) = advance(DriverState::AwaitingRequest, line(b"POST / HTTP/1.1\r\n"));
    let (state, _) = advance(state, line(b"Content-Length: 5\r\n"));
    let (state, _) = advance(state, line(b"\r\n"));
    let (state, out) = advance(state, body(b"hel"));
    assert!(matches!(state, DriverState::Closed));
    assert!(out.is_none());
}

#[test]
fn malformed_header_line_is_dropped() {
    let (state, _) = advance(DriverState::AwaitingRequest, line(b"GET / HTTP/1.1\r\n"));
    let (state, out) = advance(state, line(b"this line has no separator\r\n"));
    assert!(out.is_none());
    // The next, well-formed header still lands.
    let (state, _) = advance(state, line(b"Host: example\r\n"));
    match state {
        DriverState::ReadingHeaders { req } => {
            assert_eq!(req.headers.get(&b"host".to_vec()), Some(b"example".to_vec()));
            assert_eq!(req.headers.iter().len(), 1);
        }
        _ => panic!("expected the header state"),
    }
}

#[test]
fn two_requests_keep_the_connection_open() {
    let (state, responses) = run(vec![
        line(b"GET /a HTTP/1.1\r\n"),
        line(b"Host: one\r\n"),
        line(b"\r\n"),
        line(b"GET /b HTTP/1.1\r\n"),
        line(b"\r\n"),
    ]);
    assert_eq!(responses.len(), 2);
    for r in &responses {
        assert!(r.starts_with(b"HTTP/1.1 204 No content\r\n"));
        assert!(r.ends_with(b"Connection: keep-alive\r\n\r\n"));
    }
    assert!(matches!(state, DriverState::AwaitingRequest));
}

#[test]
fn connection_close_closes_after_one_response() {
    let (state, responses) = run(vec![
        line(b"GET / HTTP/1.1\r\n"),
        line(b"Connection: close\r\n"),
        line(b"\r\n"),
        // Anything after the close is dead.
        line(b"GET /again HTTP/1.1\r\n"),
        line(b"\r\n"),
    ]);
    assert_eq!(responses.len(), 1);
    assert!(responses[0].ends_with(b"Connection: close\r\n\r\n"));
    assert!(matches!(state, DriverState::Closed));
}

#[test]
fn later_keep_alive_does_not_undo_close() {
    let (state, responses) = run(vec![
        line(b"GET / HTTP/1.1\r\n"),
        line(b"CONNECTION: close\r\n"),
        line(b"Connection: keep-alive\r\n"),
        line(b"\r\n"),
    ]);
    assert_eq!(responses.len(), 1);
    assert!(responses[0].ends_with(b"Connection: close\r\n\r\n"));
    assert!(matches!(state, DriverState::Closed));
}

#[test]
fn close_value_is_exact() {
    // "Close" is not "close": the value is compared exactly.
    let (state, responses) = run(vec![
        line(b"GET / HTTP/1.1\r\n"),
        line(b"Connection: Close\r\n"),
        line(b"\r\n"),
    ]);
    assert_eq!(responses.len(), 1);
    assert!(responses[0].ends_with(b"Connection: keep-alive\r\n\r\n"));
    assert!(matches!(state, DriverState::AwaitingRequest));
}

#[test]
fn read_fault_mid_headers_closes_silently() {
    let (state, _) = advance(DriverState::AwaitingRequest, line(b"GET / HTTP/1.1\r\n"));
    let (state, out) = advance(state, Event::ReadFailed);
    assert!(matches!(state, DriverState::Closed));
    assert!(out.is_none());
}

#[test]
fn serialized_headers_reparse_to_the_same_table() {
    // Populate a table, render it, then feed the rendered header lines back
    // through the parser's header stage and compare lookups.
    let mut h = Headers::new();
    h.add(b"Host".to_vec(), b"example.test".to_vec());
    h.add(b"X-Trace".to_vec(), b"abc123".to_vec());
    let rendered = render_response(HTTPCodes::OK, h, true, &b"pay".to_vec());

    // Cut the rendered bytes into lines after the status line; stop at the
    // blank line.
    let text = rendered;
    let mut lines: Vec<Vec<u8>> = Vec::new();
    let mut start = 0;
    let mut i = 0;
    while i + 1 < text.len() {
        if text[i] == 13 && text[i + 1] == 10 {
            lines.push(text[start..i + 2].to_vec());
            start = i + 2;
            i += 2;
        } else {
            i += 1;
        }
    }
    assert!(lines[0].starts_with(b"HTTP/1.1 200 OK"));
    let header_lines: Vec<Vec<u8>> = lines[1..].iter().take_while(|l| l.len() > 2).cloned().collect();
    assert_eq!(header_lines.len(), 5);

    let (mut state, _) = advance(DriverState::AwaitingRequest, line(b"GET / HTTP/1.1\r\n"));
    for l in header_lines {
        let (next, out) = advance(state, Event::Line { bytes: l });
        assert!(out.is_none());
        state = next;
    }
    match state {
        DriverState::ReadingHeaders { req } => {
            let t = req.headers;
            assert_eq!(t.get(&b"host".to_vec()), Some(b"example.test".to_vec()));
            assert_eq!(t.get(&b"x-trace".to_vec()), Some(b"abc123".to_vec()));
            assert_eq!(t.get(&b"content-length".to_vec()), Some(b"3".to_vec()));
            assert_eq!(
                t.get(&b"content-type".to_vec()),
                Some(b"text/html; charset=utf-8".to_vec())
            );
            assert_eq!(t.get(&b"connection".to_vec()), Some(b"keep-alive".to_vec()));
            assert_eq!(t.iter().len(), 5);
        }
        _ => panic!("expected the header state"),
    }
}
