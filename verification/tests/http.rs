use outside::http::{
    accept_piece, after_failed_attempt, decode_chunked, plan_request, read_response, request_text,
    try_decode_chunked, ChunkError, HttpError, MAX_RESPONSE,
};

#[test]
fn decodes_chunked_bodies() {
    let body = decode_chunked(b"4\r\nWiki\r\n5\r\npedia\r\n0\r\n\r\n").ok().unwrap();
    assert_eq!(body, b"Wikipedia");
    let with_ext = decode_chunked(b"A;name=x\r\n0123456789\r\n0\r\n").ok().unwrap();
    assert_eq!(with_ext, b"0123456789");
    let padded = decode_chunked(b" +3 \r\nabc\r\n0\r\n").ok().unwrap();
    assert_eq!(padded, b"abc");
    assert_eq!(decode_chunked(b"0\r\n").ok().unwrap(), b"");
}

#[test]
fn chunked_errors() {
    assert!(matches!(decode_chunked(b"4\r\nWik"), Err(ChunkError::Truncated { want: 4, have: 3 })));
    assert!(matches!(decode_chunked(b"4"), Err(ChunkError::NoCrlfAfterSize)));
    assert!(matches!(decode_chunked(b""), Err(ChunkError::NoCrlfAfterSize)));
    assert!(matches!(decode_chunked(b"4\r\nWikiXX0\r\n"), Err(ChunkError::MissingCrlfAfterData)));
    match decode_chunked(b"zz\r\n") {
        Err(ChunkError::InvalidSize { text }) => assert_eq!(text, "zz"),
        _ => panic!("expected an invalid size"),
    }
    assert!(matches!(decode_chunked(b"-1\r\n"), Err(ChunkError::InvalidSize { .. })));
    assert!(matches!(decode_chunked(b"\xff\r\n"), Err(ChunkError::NonUtf8Size)));
    assert!(try_decode_chunked(b"ffffffffffffffff\r\nab\r\n").is_none());
}

#[test]
fn judges_responses() {
    let ok = read_response(b"HTTP/1.1 200 OK\r\nContent-Type: application/json\r\n\r\n{\"a\":1}");
    assert_eq!(ok.unwrap().ok().unwrap(), "{\"a\":1}");

    let chunked = read_response(
        b"HTTP/1.1 200 OK\r\nTransfer-Encoding: gzip, Chunked\r\n\r\n3\r\n{}x\r\n0\r\n\r\n",
    );
    assert_eq!(chunked.unwrap().ok().unwrap(), "{}x");

    let not_found = read_response(b"HTTP/1.1 404 Not Found\r\n\r\nnope");
    assert!(matches!(not_found, Some(Err(HttpError::BadStatus { status: 404 }))));

    let redirect = read_response(b"HTTP/1.1 301 Moved\r\n\r\n");
    assert_eq!(redirect.unwrap().ok().unwrap(), "");

    assert!(matches!(read_response(b"HTTP/1.1 200 OK\r\nHost: x"), Some(Err(HttpError::TruncatedHead))));
    assert!(matches!(read_response(b"garbage\r\n\r\n"), Some(Err(HttpError::MalformedHead))));
    assert!(matches!(
        read_response(b"HTTP/1.1 200 OK\r\n\r\n\xff\xfe"),
        Some(Err(HttpError::NonUtf8Body))
    ));
}

#[test]
fn caps_response_size() {
    let mut buf = vec![0u8; MAX_RESPONSE - 2];
    assert!(accept_piece(&mut buf, b"ab").is_ok());
    assert_eq!(buf.len(), MAX_RESPONSE);
    assert!(matches!(accept_piece(&mut buf, b"c"), Err(HttpError::ResponseTooLarge)));
    assert_eq!(buf.len(), MAX_RESPONSE);
}

#[test]
fn builds_requests() {
    let req = request_text("example.com", "/v1/search?name=x", "outside/1.0 (wasi)");
    assert_eq!(
        req,
        "GET /v1/search?name=x HTTP/1.1\r\nHost: example.com\r\nUser-Agent: outside/1.0 (wasi)\r\nAccept: application/json\r\nAccept-Encoding: identity\r\nConnection: close\r\n\r\n"
    );
}

#[test]
fn plans_requests() {
    let p = plan_request("https://geocoding-api.open-meteo.com/v1/search?name=Paris&count=10").ok().unwrap();
    assert!(p.secure);
    assert_eq!(p.host, "geocoding-api.open-meteo.com");
    assert_eq!(p.port, 443);
    assert_eq!(p.target, "/v1/search?name=Paris&count=10");

    let q = plan_request("http://ip-api.com/json?fields=33603794").ok().unwrap();
    assert!(!q.secure);
    assert_eq!(q.port, 80);
    assert_eq!(q.target, "/json?fields=33603794");

    let root = plan_request("http://example.com:8080").ok().unwrap();
    assert_eq!(root.port, 8080);
    assert_eq!(root.target, "/");

    assert!(matches!(plan_request("not a url"), Err(HttpError::InvalidUrl)));
    match plan_request("ftp://example.com/x") {
        Err(HttpError::UnsupportedScheme { scheme }) => assert_eq!(scheme, "ftp"),
        _ => panic!("expected an unsupported scheme"),
    }
    assert!(matches!(plan_request("mailto:someone@example.com"), Err(HttpError::NoHost)));
}

#[test]
fn retries_with_doubling_delays() {
    assert_eq!(after_failed_attempt(0, 2), Some(100));
    assert_eq!(after_failed_attempt(1, 2), Some(200));
    assert_eq!(after_failed_attempt(2, 2), None);
    assert_eq!(after_failed_attempt(5, 10), Some(3200));
    assert_eq!(after_failed_attempt(0, 0), None);
}

#[test]
fn decoding_undoes_chunking() {
    let first: Vec<u8> = (0u8..26).map(|i| b'a' + i).collect();
    let mut wire = b"1a\r\n".to_vec();
    wire.extend_from_slice(&first);
    wire.extend_from_slice(b"\r\n3\r\nXYZ\r\n0\r\n\r\n");
    let body = decode_chunked(&wire).ok().unwrap();
    let mut expected = first.clone();
    expected.extend_from_slice(b"XYZ");
    assert_eq!(body, expected);
}

#[test]
fn error_messages() {
    match decode_chunked(b"z\tz\r\n") {
        Err(e) => assert_eq!(e.message(), "Chunked: invalid chunk size \"z\\tz\""),
        Ok(_) => panic!("expected an invalid size"),
    }
    match decode_chunked(b"4\r\nWik") {
        Err(e) => assert_eq!(e.message(), "Chunked: body truncated (want 4 bytes, have 3)"),
        Ok(_) => panic!("expected a truncated body"),
    }
    let url = "ftp://example.com/x";
    match plan_request(url) {
        Err(e) => assert_eq!(e.message(url), "Unsupported URL scheme: ftp"),
        Ok(_) => panic!("expected an unsupported scheme"),
    }
    assert_eq!(
        HttpError::BadStatus { status: 404 }.message(url),
        "HTTP request failed with status 404"
    );
    assert_eq!(HttpError::ResponseTooLarge.message(url), "HTTP response exceeded 4194304 bytes");
    assert_eq!(HttpError::InvalidUrl.message("nope"), "Invalid URL: nope");
    let chunked = HttpError::Chunked { error: ChunkError::MissingCrlfAfterData };
    assert_eq!(chunked.message(url), "Chunked: missing CRLF after chunk data");
}

#[test]
fn gathers_pieces_up_to_the_cap() {
    let mut buf = Vec::new();
    for piece in [&b"HTTP/1.1 "[..], &b"200 OK\r\n"[..], &b"\r\n{}"[..]] {
        assert!(accept_piece(&mut buf, piece).is_ok());
    }
    assert_eq!(buf, b"HTTP/1.1 200 OK\r\n\r\n{}");

    let big = vec![7u8; MAX_RESPONSE / 2];
    let mut capped = Vec::new();
    assert!(accept_piece(&mut capped, &big).is_ok());
    assert!(accept_piece(&mut capped, &big).is_ok());
    assert!(matches!(accept_piece(&mut capped, b"x"), Err(HttpError::ResponseTooLarge)));
    assert_eq!(capped.len(), MAX_RESPONSE);
}

#[test]
fn trailers_after_the_last_chunk_are_ignored() {
    let body = decode_chunked(b"3\r\nabc\r\n2\r\nde\r\n0\r\nExpires: never\r\n\r\n").ok().unwrap();
    assert_eq!(body, b"abcde");
    let bare = decode_chunked(b"3\r\nabc\r\n0\r\n").ok().unwrap();
    assert_eq!(bare, b"abc");
}
