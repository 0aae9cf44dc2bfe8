use vpngate_link::proxy::{
    header_progress, parse_http_target, plan_http_request, relay_protocol, socks5_connect_reply,
    socks5_port_phase, socks5_start, socks5_step, split_host_port, target_from_uri,
    tunnel_established_reply, HeaderProgress, HttpPlan, ProxyError, RelayProtocol, Socks5Phase,
    Socks5Step, UriParts,
};

#[test]
fn splits_host_and_port() {
    let (h, p) = split_host_port("example.com:8080", 80).unwrap();
    assert_eq!((h.as_str(), p), ("example.com", 8080));
    let (h, p) = split_host_port("example.com", 443).unwrap();
    assert_eq!((h.as_str(), p), ("example.com", 443));
    let (h, p) = split_host_port("example.com:http", 80).unwrap();
    assert_eq!((h.as_str(), p), ("example.com:http", 80));
    let (h, p) = split_host_port("[2001:db8::1]:8443", 443).unwrap();
    assert_eq!((h.as_str(), p), ("2001:db8::1", 8443));
    let (h, p) = split_host_port("[::1]", 443).unwrap();
    assert_eq!((h.as_str(), p), ("::1", 443));
    let (h, p) = split_host_port("[::1]:bad", 443).unwrap();
    assert_eq!((h.as_str(), p), ("::1", 443));
    let (h, p) = split_host_port("a:b:25", 1).unwrap();
    assert_eq!((h.as_str(), p), ("a:b", 25));
    assert!(matches!(split_host_port("[::1", 443), Err(ProxyError::InvalidIpv6Host)));
}

#[test]
fn host_port_round_trip() {
    for (h, p) in [("a.b", 1u16), ("10.0.0.1", 65535), ("x:y", 80), ("", 5)] {
        let (host, port) = split_host_port(&format!("{h}:{p}"), 9).unwrap();
        assert_eq!((host.as_str(), port), (h, p));
    }
}

#[test]
fn http_target_from_uri_or_host_header() {
    let headers: Vec<String> = vec!["User-Agent: x".into(), "HOST:  example.org:8080 ".into()];
    let (h, p, path) = parse_http_target("/index.html", &headers).unwrap();
    assert_eq!((h.as_str(), p, path.as_str()), ("example.org", 8080, "/index.html"));
    let (h, p, path) = parse_http_target("http://example.com/a?b=1", &headers).unwrap();
    assert_eq!((h.as_str(), p, path.as_str()), ("example.com", 80, "/a?b=1"));
    let (h, p, path) = parse_http_target("https://example.com", &headers).unwrap();
    assert_eq!((h.as_str(), p, path.as_str()), ("example.com", 443, "/"));
    let (h, p, _) = parse_http_target("http://[::1]:81/", &headers).unwrap();
    assert_eq!((h.as_str(), p), ("::1", 81));
    let none: Vec<String> = vec!["Accept: */*".into()];
    assert!(matches!(parse_http_target("/x", &none), Err(ProxyError::MissingHost)));
    assert!(matches!(parse_http_target("http://exa mple/", &none), Err(ProxyError::InvalidUri(_))));
}

#[test]
fn uri_parts_give_the_target() {
    let parts = UriParts { scheme: Some("https".into()), authority: Some("h:1".into()), path_and_query: None };
    let (h, p, path) = target_from_uri(&parts).unwrap();
    assert_eq!((h.as_str(), p, path.as_str()), ("h", 1, "/"));
    let parts = UriParts { scheme: Some("https".into()), authority: Some("h".into()), path_and_query: Some("/q".into()) };
    assert_eq!(target_from_uri(&parts).unwrap().1, 443);
    let parts = UriParts { scheme: None, authority: None, path_and_query: Some("/q".into()) };
    assert!(matches!(target_from_uri(&parts), Err(ProxyError::MissingAuthority)));
}

#[test]
fn plans_a_connect_tunnel() {
    let req = b"CONNECT example.com:443 HTTP/1.1\r\nHost: example.com:443\r\n\r\nhello";
    match plan_http_request(req).unwrap() {
        HttpPlan::Tunnel { host, port, rest } => {
            assert_eq!(host, "example.com");
            assert_eq!(port, 443);
            assert_eq!(rest, b"hello".to_vec());
        }
        other => panic!("unexpected {other:?}"),
    }
    match plan_http_request(b"connect host HTTP/1.1\r\n\r\n").unwrap() {
        HttpPlan::Tunnel { host, port, .. } => assert_eq!((host.as_str(), port), ("host", 443)),
        other => panic!("unexpected {other:?}"),
    }
}

#[test]
fn plans_a_forwarded_request() {
    let req = b"GET http://example.com/p HTTP/1.0\r\nProxy-Connection: keep-alive\r\nAccept: */*\r\nconnection: keep-alive\r\nX-Connection-Id: 1\r\n\r\nbody";
    match plan_http_request(req).unwrap() {
        HttpPlan::Forward { host, port, request, rest } => {
            assert_eq!(host, "example.com");
            assert_eq!(port, 80);
            assert_eq!(request, "GET /p HTTP/1.0\r\nAccept: */*\r\nX-Connection-Id: 1\r\nConnection: close\r\n\r\n");
            assert_eq!(rest, b"body".to_vec());
        }
        other => panic!("unexpected {other:?}"),
    }
    match plan_http_request(b"GET /\r\nHost: h\r\n\r\n").unwrap() {
        HttpPlan::Forward { request, .. } => assert_eq!(request, "GET / HTTP/1.1\r\nHost: h\r\nConnection: close\r\n\r\n"),
        other => panic!("unexpected {other:?}"),
    }
}

#[test]
fn refuses_bad_http_headers() {
    assert!(matches!(plan_http_request(b"GET / HTTP/1.1\r\n"), Err(ProxyError::InvalidHeader)));
    assert!(matches!(plan_http_request(b"\r\n\r\n"), Err(ProxyError::MissingRequestLine)));
    assert!(matches!(plan_http_request(b"GET / HTTP/1.1\r\n\r\n"), Err(ProxyError::MissingHost)));
    assert!(matches!(plan_http_request(b"CONNECT [::1 HTTP/1.1\r\n\r\n"), Err(ProxyError::InvalidIpv6Host)));
}

#[test]
fn header_progress_by_size_and_blank_line() {
    assert_eq!(header_progress(b"G"), HeaderProgress::NeedMore);
    assert_eq!(header_progress(b"GET / HTTP/1.1\r\n\r\n"), HeaderProgress::Complete);
    let big = vec![b'a'; 65537];
    assert_eq!(header_progress(&big), HeaderProgress::TooLarge);
    let limit = vec![b'a'; 65536];
    assert_eq!(header_progress(&limit), HeaderProgress::NeedMore);
}

#[test]
fn first_byte_selects_the_protocol() {
    assert_eq!(relay_protocol(5), RelayProtocol::Socks5);
    assert_eq!(relay_protocol(b'G'), RelayProtocol::Http);
    assert_eq!(relay_protocol(4), RelayProtocol::Http);
}

fn expect_continue(step: Socks5Step) -> (Socks5Phase, Vec<u8>, usize) {
    match step {
        Socks5Step::Continue { next, reply, read } => (next, reply, read),
        other => panic!("unexpected {other:?}"),
    }
}

#[test]
fn socks5_ipv4_connect() {
    let (phase, read) = socks5_start();
    assert_eq!(read, 1);
    let (phase, reply, read) = expect_continue(socks5_step(phase, &[2]));
    assert!(reply.is_empty());
    assert_eq!(read, 2);
    let (phase, reply, read) = expect_continue(socks5_step(phase, &[0, 2]));
    assert_eq!(reply, vec![5, 0]);
    assert_eq!(read, 4);
    let (phase, _, read) = expect_continue(socks5_step(phase, &[5, 1, 0, 1]));
    assert_eq!(read, 4);
    let (phase, _, read) = expect_continue(socks5_step(phase, &[192, 168, 0, 10]));
    assert_eq!(read, 2);
    match socks5_step(phase, &[0x01, 0xbb]) {
        Socks5Step::Connect { host, port } => {
            assert_eq!(host, "192.168.0.10");
            assert_eq!(port, 443);
        }
        other => panic!("unexpected {other:?}"),
    }
}

#[test]
fn socks5_domain_and_ipv6() {
    let (phase, _, read) = expect_continue(socks5_step(Socks5Phase::Request, &[5, 1, 0, 3]));
    assert_eq!(read, 1);
    let (phase, _, read) = expect_continue(socks5_step(phase, &[3]));
    assert_eq!(read, 3);
    let (phase, _, _) = expect_continue(socks5_step(phase, b"a\xffb"));
    match socks5_step(phase, &[0, 80]) {
        Socks5Step::Connect { host, port } => assert_eq!((host.as_str(), port), ("a\u{fffd}b", 80)),
        other => panic!("unexpected {other:?}"),
    }
    let (phase, _, read) = expect_continue(socks5_step(Socks5Phase::Request, &[5, 1, 0, 4]));
    assert_eq!(read, 16);
    let bytes = [0u8, 0, 0, 0, 0, 0, 0, 0, 0, 0, 0, 0, 0, 0, 0, 1];
    match socks5_step(phase, &bytes) {
        Socks5Step::Ipv6Host { bytes: b } => assert_eq!(b, bytes.to_vec()),
        other => panic!("unexpected {other:?}"),
    }
    let (phase, read) = socks5_port_phase("::1".to_string());
    assert_eq!(read, 2);
    match socks5_step(phase, &[0x1f, 0x90]) {
        Socks5Step::Connect { host, port } => assert_eq!((host.as_str(), port), ("::1", 8080)),
        other => panic!("unexpected {other:?}"),
    }
}

#[test]
fn socks5_refusals() {
    match socks5_step(Socks5Phase::Request, &[5, 2, 0, 1]) {
        Socks5Step::Fail { reply, error } => {
            assert_eq!(reply, vec![5, 7, 0, 1, 0, 0, 0, 0, 0, 0]);
            assert!(matches!(error, ProxyError::UnsupportedCommand));
        }
        other => panic!("unexpected {other:?}"),
    }
    match socks5_step(Socks5Phase::Request, &[5, 1, 0, 9]) {
        Socks5Step::Fail { reply, error } => {
            assert!(reply.is_empty());
            assert!(matches!(error, ProxyError::UnsupportedAddressType));
        }
        other => panic!("unexpected {other:?}"),
    }
    let (_, _, read) = expect_continue(socks5_step(Socks5Phase::MethodCount, &[0]));
    assert_eq!(read, 0);
}

#[test]
fn relay_replies() {
    assert_eq!(socks5_connect_reply(true), vec![5, 0, 0, 1, 0, 0, 0, 0, 0, 0]);
    assert_eq!(socks5_connect_reply(false), vec![5, 4, 0, 1, 0, 0, 0, 0, 0, 0]);
    assert_eq!(tunnel_established_reply(), "HTTP/1.1 200 Connection Established\r\n\r\n");
}
