use http_core::bytes::{bytes_eq, dec_bytes, lower_bytes, parse_dec, split_bytes, strip_crlf};
use http_core::headers::Headers;
use http_core::status::{HTTPCodes, HTTPError};

#[test]
fn lowercasing_folds_ascii_letters_only() {
    let s = b"AbC-Xyz_09".to_vec();
    assert_eq!(lower_bytes(&s), b"abc-xyz_09".to_vec());
}

#[test]
fn byte_equality() {
    assert!(bytes_eq(&b"abc".to_vec(), &b"abc".to_vec()));
    assert!(!bytes_eq(&b"abc".to_vec(), &b"abd".to_vec()));
    assert!(!bytes_eq(&b"abc".to_vec(), &b"ab".to_vec()));
}

#[test]
fn strip_crlf_removes_one_terminator() {
    assert_eq!(strip_crlf(&b"line\r\n".to_vec()), b"line".to_vec());
    assert_eq!(strip_crlf(&b"line\n".to_vec()), b"line\n".to_vec());
    assert_eq!(strip_crlf(&b"\r\n".to_vec()), b"".to_vec());
    assert_eq!(strip_crlf(&b"".to_vec()), b"".to_vec());
}

#[test]
fn splitting_on_spaces() {
    let parts = split_bytes(&b"GET /index HTTP/1.1".to_vec(), &b" ".to_vec());
    assert_eq!(parts, vec![b"GET".to_vec(), b"/index".to_vec(), b"HTTP/1.1".to_vec()]);
}

#[test]
fn splitting_keeps_empty_tokens() {
    let parts = split_bytes(&b"a  b".to_vec(), &b" ".to_vec());
    assert_eq!(parts, vec![b"a".to_vec(), b"".to_vec(), b"b".to_vec()]);
    let parts = split_bytes(&b"".to_vec(), &b" ".to_vec());
    assert_eq!(parts, vec![b"".to_vec()]);
}

#[test]
fn splitting_on_header_separator() {
    let parts = split_bytes(&b"Host: example".to_vec(), &b": ".to_vec());
    assert_eq!(parts, vec![b"Host".to_vec(), b"example".to_vec()]);
    let parts = split_bytes(&b"no separator here".to_vec(), &b": ".to_vec());
    assert_eq!(parts.len(), 1);
    let parts = split_bytes(&b"a: b: c".to_vec(), &b": ".to_vec());
    assert_eq!(parts.len(), 3);
}

#[test]
fn decimal_parsing() {
    assert_eq!(parse_dec(&b"0".to_vec()), Some(0));
    assert_eq!(parse_dec(&b"123".to_vec()), Some(123));
    assert_eq!(parse_dec(&b"007".to_vec()), Some(7));
    assert_eq!(parse_dec(&b"".to_vec()), None);
    assert_eq!(parse_dec(&b"12a".to_vec()), None);
    assert_eq!(parse_dec(&b"-1".to_vec()), None);
    assert_eq!(parse_dec(&b"99999999999999999999999999".to_vec()), None);
}

#[test]
fn decimal_rendering() {
    assert_eq!(dec_bytes(0), b"0".to_vec());
    assert_eq!(dec_bytes(10), b"10".to_vec());
    assert_eq!(dec_bytes(409), b"409".to_vec());
}

#[test]
fn decimal_round_trip() {
    for n in [0usize, 1, 9, 10, 99, 100, 65535, 123456789] {
        assert_eq!(parse_dec(&dec_bytes(n)), Some(n));
    }
}

#[test]
fn status_texts() {
    assert_eq!(HTTPCodes::OK.as_str(), "200 OK");
    assert_eq!(HTTPCodes::NoContent.as_str(), "204 No content");
    assert_eq!(HTTPCodes::BadRequest.as_str(), "400 Bad Request");
    assert_eq!(HTTPCodes::OK.status_bytes(), b"200 OK".to_vec());
    assert_eq!(HTTPCodes::NoContent.status_bytes(), b"204 No content".to_vec());
    assert_eq!(HTTPCodes::BadRequest.status_bytes(), b"400 Bad Request".to_vec());
}

#[test]
fn header_lookup_is_case_insensitive() {
    let mut h = Headers::new();
    h.add(b"Content-TYPE".to_vec(), b"text/plain".to_vec());
    assert_eq!(h.get(&b"content-type".to_vec()), Some(b"text/plain".to_vec()));
    assert_eq!(h.get(&b"CONTENT-TYPE".to_vec()), Some(b"text/plain".to_vec()));
    assert_eq!(h.get(&b"Content-Type".to_vec()), Some(b"text/plain".to_vec()));
    assert_eq!(h.get(&b"content-length".to_vec()), None);
}

#[test]
fn header_last_write_wins_across_case() {
    let mut h = Headers::new();
    h.add(b"Accept".to_vec(), b"a".to_vec());
    h.add(b"ACCEPT".to_vec(), b"b".to_vec());
    assert_eq!(h.get(&b"accept".to_vec()), Some(b"b".to_vec()));
    let entries = h.iter();
    assert_eq!(entries.len(), 1);
    assert_eq!(entries[0].name, b"ACCEPT".to_vec());
    assert_eq!(entries[0].value, b"b".to_vec());
}

#[test]
fn content_length_present_and_valid() {
    let mut h = Headers::new();
    h.add(b"content-length".to_vec(), b"42".to_vec());
    assert_eq!(h.get_content_length().unwrap(), 42);
}

#[test]
fn content_length_absent_is_parsing_error() {
    let h = Headers::new();
    assert_eq!(
        h.get_content_length(),
        Err(HTTPError::ParsingError { header: b"Content-Length".to_vec() })
    );
}

#[test]
fn content_length_malformed_is_missing_header() {
    let mut h = Headers::new();
    h.add(b"Content-Length".to_vec(), b"ten".to_vec());
    assert_eq!(
        h.get_content_length(),
        Err(HTTPError::MissingHeader { header: b"Content-Length".to_vec() })
    );
}

#[test]
fn content_length_too_large_is_missing_header() {
    let mut h = Headers::new();
    h.add(b"Content-Length".to_vec(), b"99999999999999999999999999".to_vec());
    assert!(matches!(h.get_content_length(), Err(HTTPError::MissingHeader { .. })));
}
