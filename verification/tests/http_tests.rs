use scarlet_youtube::http::{
    body_framing, chunk_size, chunked_body_complete, chunked_progress, content_length,
    decode_chunked_buffer, find_head_end, head_progress, header_value, http_get_request,
    http_response_complete, https_post_json_request, is_chunked, is_redirect,
    parse_complete_http_response, parse_status, redirect_step, utf8_text, BodyFraming,
    ChunkedProgress,
};
use scarlet_youtube::url::{parse_url, UrlParts};

fn url(scheme: &str, host: &str, port: u16, path: &str) -> UrlParts {
    UrlParts {
        scheme: scheme.to_string(),
        host: host.to_string(),
        port,
        path: path.to_string(),
    }
}

#[test]
fn status_is_the_second_word_of_the_first_line() {
    assert_eq!(parse_status("HTTP/1.1 200 OK\r\nA: b\r\n\r\n"), Ok(200));
    assert_eq!(parse_status("HTTP/1.0   404\r\n"), Ok(404));
}

#[test]
fn status_errors() {
    assert_eq!(parse_status(""), Err("empty HTTP response".to_string()));
    assert_eq!(parse_status("HTTP/1.1\r\n"), Err("invalid HTTP status".to_string()));
    assert_eq!(parse_status("HTTP/1.1 70000 Big\r\n"), Err("invalid HTTP status".to_string()));
    assert_eq!(parse_status("HTTP/1.1 2x0 OK\r\n"), Err("invalid HTTP status".to_string()));
}

#[test]
fn header_value_ignores_case_and_the_status_line() {
    let head = "Location: /nope\r\nContent-Length:  12 \r\nX-Other: a:b\r\n\r\n";
    assert_eq!(header_value(head, "location"), None);
    assert_eq!(header_value(head, "content-length"), Some("12".to_string()));
    assert_eq!(header_value(head, "X-OTHER"), Some("a:b".to_string()));
    assert_eq!(header_value(head, "missing"), None);
}

#[test]
fn redirect_statuses() {
    for s in [301u16, 302, 303, 307, 308] {
        assert!(is_redirect(s));
    }
    for s in [200u16, 300, 304, 305, 306, 309] {
        assert!(!is_redirect(s));
    }
}

#[test]
fn request_texts() {
    let u = url("https", "example.com", 443, "/a?b=c");
    assert_eq!(
        http_get_request(&u, "UA/1", "X: y\r\n"),
        "GET /a?b=c HTTP/1.1\r\nHost: example.com\r\nUser-Agent: UA/1\r\nAccept: */*\r\nAccept-Encoding: identity\r\nX: y\r\nConnection: close\r\n\r\n"
    );
    assert_eq!(
        https_post_json_request(&u, "{\"a\":\"é\"}", "UA", ""),
        "POST /a?b=c HTTP/1.1\r\nHost: example.com\r\nUser-Agent: UA\r\nAccept: */*\r\nAccept-Encoding: identity\r\nContent-Type: application/json\r\nContent-Length: 10\r\nConnection: close\r\n\r\n{\"a\":\"é\"}"
    );
}

#[test]
fn chunk_size_reads_hex_before_extensions() {
    assert_eq!(chunk_size(b"1a"), Some(26));
    assert_eq!(chunk_size(b" Ff ;name=v"), Some(255));
    assert_eq!(chunk_size(b""), None);
    assert_eq!(chunk_size(b"xyz"), None);
    assert_eq!(chunk_size(&[0xff, 0x31]), None);
}

#[test]
fn chunked_decoding() {
    let body = b"4\r\nWiki\r\n5;ext\r\npedia\r\n0\r\n\r\n";
    assert_eq!(decode_chunked_buffer(body), Ok(b"Wikipedia".to_vec()));
    assert!(chunked_body_complete(body));
    assert!(!chunked_body_complete(b"4\r\nWiki\r\n0\r\n"));
    assert_eq!(decode_chunked_buffer(b"4\r\nWi"), Err("truncated chunked body".to_string()));
    assert_eq!(decode_chunked_buffer(b"zz\r\n"), Err("invalid chunk size".to_string()));
    assert_eq!(decode_chunked_buffer(b"4"), Err("invalid chunked body".to_string()));
}

#[test]
fn chunked_progress_asks_for_more_until_the_last_chunk() {
    assert!(matches!(chunked_progress(b"4\r\nWi"), ChunkedProgress::NeedMore));
    assert!(matches!(chunked_progress(b"4\r\nWiki\r\n"), ChunkedProgress::NeedMore));
    match chunked_progress(b"4\r\nWiki\r\n0\r\n") {
        ChunkedProgress::Done(d) => assert_eq!(d, b"Wiki".to_vec()),
        _ => panic!("expected the body"),
    }
    match chunked_progress(b"q\r\n") {
        ChunkedProgress::Invalid(m) => assert_eq!(m, "invalid chunk size"),
        _ => panic!("expected a failure"),
    }
}

#[test]
fn head_end_and_progress() {
    assert_eq!(find_head_end(b"HTTP/1.1 200 OK\r\n\r\nbody"), Some(19));
    assert_eq!(find_head_end(b"HTTP/1.1 200 OK\r\n"), None);
    assert_eq!(head_progress(b"HTTP/1.1 200 OK\r\n\r\n"), Ok(Some(19)));
    let big = vec![b'a'; 65537];
    assert_eq!(head_progress(&big), Err("HTTP headers are too large".to_string()));
}

#[test]
fn framing_of_a_body() {
    assert!(is_chunked("HTTP/1.1 200 OK\r\nTransfer-Encoding: gzip, CHUNKED\r\n\r\n"));
    assert_eq!(content_length("HTTP/1.1 200 OK\r\nContent-Length: 7\r\n\r\n"), Some(Some(7)));
    assert_eq!(content_length("HTTP/1.1 200 OK\r\nContent-Length: x\r\n\r\n"), Some(None));
    assert_eq!(content_length("HTTP/1.1 200 OK\r\n\r\n"), None);
    assert!(matches!(
        body_framing("HTTP/1.1 200 OK\r\nTransfer-Encoding: chunked\r\nContent-Length: 3\r\n\r\n"),
        Ok(BodyFraming::Chunked)
    ));
    assert!(matches!(
        body_framing("HTTP/1.1 200 OK\r\nContent-Length: 3\r\n\r\n"),
        Ok(BodyFraming::Length(3))
    ));
    assert!(matches!(body_framing("HTTP/1.1 200 OK\r\n\r\n"), Ok(BodyFraming::UntilClose)));
    match body_framing("HTTP/1.1 200 OK\r\nContent-Length: -1\r\n\r\n") {
        Err(e) => assert_eq!(e, "invalid Content-Length header"),
        Ok(_) => panic!("expected a failure"),
    }
}

#[test]
fn response_completeness() {
    assert!(http_response_complete(b"HTTP/1.1 200 OK\r\nContent-Length: 2\r\n\r\nhi"));
    assert!(!http_response_complete(b"HTTP/1.1 200 OK\r\nContent-Length: 3\r\n\r\nhi"));
    assert!(!http_response_complete(b"HTTP/1.1 200 OK\r\n\r\nhi"));
    assert!(http_response_complete(
        b"HTTP/1.1 200 OK\r\nTransfer-Encoding: chunked\r\n\r\n2\r\nhi\r\n0\r\n\r\n"
    ));
}

#[test]
fn complete_response_parses() {
    let r = parse_complete_http_response(
        b"HTTP/1.1 200 OK\r\nContent-Length: 2\r\n\r\nhello".to_vec(),
    )
    .unwrap();
    assert_eq!(r.status, 200);
    assert_eq!(r.headers, "HTTP/1.1 200 OK\r\nContent-Length: 2\r\n\r\n");
    assert_eq!(r.body, b"he".to_vec());

    let r = parse_complete_http_response(
        b"HTTP/1.1 201 Created\r\nTransfer-Encoding: chunked\r\n\r\n3\r\nabc\r\n0\r\n\r\n".to_vec(),
    )
    .unwrap();
    assert_eq!(r.status, 201);
    assert_eq!(r.body, b"abc".to_vec());

    let r = parse_complete_http_response(b"HTTP/1.1 204 No\r\n\r\nrest".to_vec()).unwrap();
    assert_eq!(r.body, b"rest".to_vec());
}

#[test]
fn response_parse_errors() {
    assert_eq!(
        parse_complete_http_response(b"HTTP/1.1 200 OK\r\n".to_vec()).err(),
        Some("HTTP headers not found".to_string())
    );
    assert_eq!(
        parse_complete_http_response(b"HTTP/1.1 200 \xff\r\n\r\n".to_vec()).err(),
        Some("HTTP headers are not UTF-8".to_string())
    );
    assert_eq!(
        parse_complete_http_response(b"HTTP/1.1 200 OK\r\nContent-Length: z\r\n\r\n".to_vec()).err(),
        Some("invalid Content-Length header".to_string())
    );
}

#[test]
fn utf8_text_checks_the_encoding() {
    assert_eq!(utf8_text("héllo".as_bytes()), Some("héllo"));
    assert_eq!(utf8_text(&[0xc3]), None);
}

#[test]
fn redirect_steps() {
    let here = parse_url("https://a.example/dir/page").unwrap();
    let next = redirect_step(&here, 302, "HTTP/1.1 302 Found\r\nLocation: other\r\n\r\n", 0)
        .unwrap()
        .unwrap();
    assert_eq!(next.host, "a.example");
    assert_eq!(next.path, "/dir/other");
    let next = redirect_step(&here, 301, "HTTP/1.1 301 M\r\nLocation: http://b.example:8080/x\r\n\r\n", 3)
        .unwrap()
        .unwrap();
    assert_eq!((next.scheme.as_str(), next.host.as_str(), next.port, next.path.as_str()), ("http", "b.example", 8080, "/x"));
    assert_eq!(
        redirect_step(&here, 302, "HTTP/1.1 302 Found\r\n\r\n", 0).err(),
        Some("redirect without Location header".to_string())
    );
    assert_eq!(
        redirect_step(&here, 307, "HTTP/1.1 307 T\r\nLocation: /x\r\n\r\n", 8).err(),
        Some("too many redirects".to_string())
    );
    assert_eq!(redirect_step(&here, 404, "HTTP/1.1 404 NF\r\n\r\n", 0).err(), Some("HTTP status 404".to_string()));
    assert!(redirect_step(&here, 200, "HTTP/1.1 200 OK\r\n\r\n", 0).unwrap().is_none());
}

#[test]
fn transports_by_scheme() {
    transport_case("http", Ok(scarlet_youtube::http::Transport::Plain));
    transport_case("https", Ok(scarlet_youtube::http::Transport::Tls));
    transport_case("ftp", Err("unsupported URL scheme: ftp".to_string()));
    assert!(scarlet_youtube::http::is_failure_status(404));
    assert!(scarlet_youtube::http::is_failure_status(199));
    assert!(!scarlet_youtube::http::is_failure_status(302));
    assert!(!scarlet_youtube::http::is_failure_status(200));
}

fn transport_case(scheme: &str, expected: Result<scarlet_youtube::http::Transport, String>) {
    let u = url(scheme, "h", 1, "/");
    assert_eq!(scarlet_youtube::http::transport_for(&u), expected);
}

#[test]
fn a_complete_chunked_body_stays_complete() {
    let body = b"4\r\nWiki\r\n0\r\n\r\n".to_vec();
    assert!(chunked_body_complete(&body));
    assert!(decode_chunked_buffer(&body).is_ok());
    for extra in [&b""[..], b"x", b"\r\n5\r\n", b"garbage after the end"] {
        let longer = [body.as_slice(), extra].concat();
        assert!(chunked_body_complete(&longer));
    }
    assert!(!chunked_body_complete(b"4\r\nWiki\r\n0\r\n"));
}

#[test]
fn parsed_urls_written_out_parse_back() {
    for input in [
        "HTTPS://Example.com/a?b=1",
        "http://host",
        "http://host:8080?x",
        "https://a:b:443/p",
        "ftp://h:21/f",
    ] {
        let u = parse_url(input).unwrap();
        assert!(u.path.starts_with('/'));
        assert_eq!(u.scheme, u.scheme.to_ascii_lowercase());
        let again = parse_url(&format!("{}://{}:{}{}", u.scheme, u.host, u.port, u.path)).unwrap();
        assert_eq!(
            (again.scheme, again.host, again.port, again.path),
            (u.scheme, u.host, u.port, u.path)
        );
    }
}
