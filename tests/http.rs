use http_wire::{parse_method, parse_protocol, render_protocol, render_status};
use http_wire::{Error, Method, Protocol, Request, Response, StatusCode};

fn header<'a>(req: &'a Request, key: &str) -> Option<&'a str> {
    req.headers().get(key).map(|s| s.as_str())
}

#[test]
fn respond_to_ping() {
    let request = "POST / HTTP/1.1\r\nHost: 6095-143-159-233-243.ngrok-free.app\r\nUser-Agent: Discord-Interactions/1.0 (+https://discord.com)\r\nContent-Length: 577\r\nContent-Type: application/json\r\nX-Forwarded-Proto: https\r\nX-Signature-Ed25519: 9a10c00a02d8b5d56bf17f3059790c9603a0bba41d8e\r\nAccept-Encoding: gzip\r\n\r\n{\"app_permissions\":\"180224\",\"application_id\":\"1216441490306502796\",\"entitlements\":[],\"id\":\"1218320751015235605\",\"token\":\"foo\",\"type\":1,\"user\":{\"avatar\":\"c6a249645d462\",\"avatar_decoration_data\":null,\"bot\":true,\"discriminator\":\"0000\",\"global_name\":\"Discord\",\"id\":\"6439452\",\"public_flags\":1,\"system\":true,\"username\":\"discord\"},\"version\":1}";

    let http = Request::from_bytes(request.as_bytes()).unwrap();
    assert_eq!(*http.method(), Method::Post);
    assert_eq!(*http.protocol(), Protocol::Http1_1);
    assert_eq!(http.path(), "");
    assert_eq!(http.headers().len(), 7);
    assert_eq!(header(&http, "host"), Some("6095-143-159-233-243.ngrok-free.app"));
    assert_eq!(header(&http, "x-signature-ed25519"), Some("9a10c00a02d8b5d56bf17f3059790c9603a0bba41d8e"));
    assert_eq!(http.content_len(), 577);
    assert!(http.body().starts_with("{\"app_permissions\""));
    assert!(http.body().ends_with("\"version\":1}"));
}

#[test]
fn no_body() {
    let request = "POST / HTTP/1.1\r\n\r\n";
    let http = Request::from_bytes(request.as_bytes()).unwrap();
    assert_eq!(http.body(), "");
    assert_eq!(http.content_len(), 0);
}

#[test]
fn protocol_round_trip() {
    for p in [Protocol::Http1_1, Protocol::Http1_0, Protocol::Http0_9] {
        assert_eq!(parse_protocol(render_protocol(p)), Ok(p));
    }
    assert_eq!(render_protocol(Protocol::Http1_0), "HTTP/1.0");
}

#[test]
fn parse_is_case_insensitive() {
    assert_eq!(parse_protocol("hTtP/0.9"), Ok(Protocol::Http0_9));
    assert_eq!(parse_method("GeT"), Ok(Method::Get));
    assert_eq!(parse_method("connect"), Ok(Method::Connect));
    assert_eq!(parse_method("POST"), Ok(Method::Post));
}

#[test]
fn unknown_tokens_fail() {
    assert_eq!(parse_protocol("ftp/2.0"), Err(Error::InvalidProtocol));
    assert_eq!(parse_method("delete"), Err(Error::InvalidMethod));
    assert_eq!(parse_method("gett"), Err(Error::InvalidMethod));
    assert_eq!(parse_protocol(""), Err(Error::InvalidProtocol));
}

#[test]
fn status_text() {
    assert_eq!(render_status(StatusCode::Okay), "200 Okay");
    assert_eq!(render_status(StatusCode::NoContent), "204 No Content");
    assert_eq!(render_status(StatusCode::NotFound), "404 Not Found");
}

#[test]
fn decode_minimal_get() {
    let r = Request::from_bytes(b"GET / HTTP/1.1\r\n\r\n").unwrap();
    assert_eq!(*r.method(), Method::Get);
    assert_eq!(r.path(), "");
    assert_eq!(*r.protocol(), Protocol::Http1_1);
    assert!(r.headers().is_empty());
    assert_eq!(r.body(), "");
    assert!(r.query().is_none());
}

#[test]
fn decode_query_and_header() {
    let r = Request::from_bytes(b"GET /a?x=1&y=2 HTTP/1.1\r\nHost: h\r\n\r\n").unwrap();
    assert_eq!(r.path(), "/a");
    let q = r.query().as_ref().unwrap();
    assert_eq!(q.len(), 2);
    assert_eq!(q.get("x").map(|s| s.as_str()), Some("1"));
    assert_eq!(q.get("y").map(|s| s.as_str()), Some("2"));
    assert_eq!(r.headers().len(), 1);
    assert_eq!(header(&r, "host"), Some("h"));
    assert_eq!(header(&r, "Host"), None);
}

#[test]
fn decode_duplicates_last_wins() {
    let r = Request::from_bytes(b"GET /p/?k=1&k=2&v=a=b HTTP/1.0\r\nX-A:  one \r\nx-a: two\r\n\r\nbody").unwrap();
    assert_eq!(r.path(), "/p");
    let q = r.query().as_ref().unwrap();
    assert_eq!(q.len(), 2);
    assert_eq!(q.get("k").map(|s| s.as_str()), Some("2"));
    assert_eq!(q.get("v").map(|s| s.as_str()), Some("a=b"));
    assert_eq!(r.headers().len(), 1);
    assert_eq!(header(&r, "x-a"), Some("two"));
    assert_eq!(r.body(), "body");
    assert_eq!(*r.protocol(), Protocol::Http1_0);
}

#[test]
fn decode_trims_and_lowercases_header() {
    let r = Request::from_bytes(b"POST /x/// HTTP/1.1\r\n  CONTENT-Length :\t12 \r\n\r\nhello world!").unwrap();
    assert_eq!(r.path(), "/x");
    assert_eq!(header(&r, "content-length"), Some("12"));
    assert_eq!(r.content_len(), 12);
    assert_eq!(r.body(), "hello world!");
}

#[test]
fn decode_empty_query_is_present() {
    let r = Request::from_bytes(b"GET /a?k= HTTP/1.1\r\n\r\n").unwrap();
    let q = r.query().as_ref().unwrap();
    assert_eq!(q.get("k").map(|s| s.as_str()), Some(""));
}

#[test]
fn decode_missing_blank_line() {
    assert_eq!(Request::from_bytes(b"GET / HTTP/1.1\r\nHost: h\r\n").err(), Some(Error::MissingHeaderEnd));
    assert_eq!(Request::from_bytes(b"").err(), Some(Error::MissingHeaderEnd));
}

#[test]
fn decode_invalid_utf8() {
    assert_eq!(Request::from_bytes(&[0x47, 0xff, 0x0d, 0x0a, 0x0d, 0x0a]).err(), Some(Error::InvalidEncoding));
}

#[test]
fn decode_malformed_request_line() {
    assert_eq!(Request::from_bytes(b"GET /\r\n\r\n").err(), Some(Error::MalformedRequestLine));
    assert_eq!(Request::from_bytes(b"\r\n\r\n").err(), Some(Error::MalformedRequestLine));
    assert_eq!(Request::from_bytes(b"GET / HTTP/1.1 x\r\n\r\n").err(), Some(Error::MalformedRequestLine));
}

#[test]
fn decode_bad_tokens() {
    assert_eq!(Request::from_bytes(b"DELETE / HTTP/1.1\r\n\r\n").err(), Some(Error::InvalidMethod));
    assert_eq!(Request::from_bytes(b"GET / HTTP/2.0\r\n\r\n").err(), Some(Error::InvalidProtocol));
}

#[test]
fn decode_malformed_header_and_query() {
    assert_eq!(Request::from_bytes(b"GET / HTTP/1.1\r\nHost h\r\n\r\n").err(), Some(Error::MalformedHeader));
    assert_eq!(Request::from_bytes(b"GET /a?x HTTP/1.1\r\n\r\n").err(), Some(Error::MalformedQuery));
    assert_eq!(Request::from_bytes(b"GET /a?x=1& HTTP/1.1\r\n\r\n").err(), Some(Error::MalformedQuery));
}

#[test]
fn content_len_forms() {
    let len = |h: &str| {
        let text = format!("GET / HTTP/1.1\r\nContent-Length: {}\r\n\r\n", h);
        Request::from_bytes(text.as_bytes()).unwrap().content_len()
    };
    assert_eq!(len("0"), 0);
    assert_eq!(len("+7"), 7);
    assert_eq!(len("abc"), 0);
    assert_eq!(len("-1"), 0);
    assert_eq!(len("99999999999999999999999"), 0);
    assert_eq!(len("18446744073709551615"), 18446744073709551615usize);
}

#[test]
fn body_mut_changes_body() {
    let mut r = Request::from_bytes(b"GET / HTTP/1.1\r\n\r\nab").unwrap();
    r.body_mut().push('c');
    assert_eq!(r.body(), "abc");
}

#[test]
fn serialise_not_found_with_body() {
    let mut resp = Response::new().set_status_code(StatusCode::NotFound).set_body("nope");
    assert_eq!(resp.serialise(), "HTTP/1.1 404 Not Found\r\nContent-Length: 4\r\n\r\nnope");
}

#[test]
fn serialise_without_body() {
    let mut resp = Response::new();
    assert_eq!(resp.serialise(), "HTTP/1.1 200 Okay\r\n\r\n");
}

#[test]
fn serialise_counts_bytes() {
    let mut resp = Response::new().set_body("h\u{e9}llo w\u{f6}rld!");
    assert_eq!(resp.serialise(), "HTTP/1.1 200 Okay\r\nContent-Length: 14\r\n\r\nh\u{e9}llo w\u{f6}rld!");
}

#[test]
fn serialise_takes_body() {
    let mut resp = Response::new().set_status_code(StatusCode::NoContent).set_body("x");
    assert_eq!(resp.serialise(), "HTTP/1.1 204 No Content\r\nContent-Length: 1\r\n\r\nx");
    assert_eq!(resp.serialise(), "HTTP/1.1 204 No Content\r\nContent-Length: 1\r\n\r\n");
}

#[test]
fn serialise_overwrites_content_length() {
    let mut resp = Response::new().add_header("Content-Length", "99").add_header("Server", "s").set_body("abc");
    assert_eq!(resp.serialise(), "HTTP/1.1 200 Okay\r\nContent-Length: 3\r\nServer: s\r\n\r\nabc");
}

#[test]
fn builder_order_does_not_matter() {
    let mut a = Response::new()
        .set_status_code(StatusCode::NotFound)
        .add_header("b-key", "2")
        .add_header("a-key", "1")
        .set_body("body");
    let mut b = Response::new()
        .set_body("body")
        .add_header("a-key", "1")
        .set_status_code(StatusCode::NotFound)
        .add_header("b-key", "2");
    let sa = a.serialise();
    assert_eq!(sa, b.serialise());
    assert_eq!(sa, "HTTP/1.1 404 Not Found\r\nContent-Length: 4\r\na-key: 1\r\nb-key: 2\r\n\r\nbody");
}

#[test]
fn add_header_replaces_value() {
    let mut resp = Response::new().add_header("k", "1").add_header("k", "2");
    assert_eq!(resp.serialise(), "HTTP/1.1 200 Okay\r\nk: 2\r\n\r\n");
}
