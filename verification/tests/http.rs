use std::sync::Arc;
use std::time::Duration;

use base64::engine::general_purpose::STANDARD;
use base64::Engine;
use rust_proxy::common::auth::{AuthError, AuthManager};
use rust_proxy::net::conn::{BufferedConnection, ConnError, ReadEvent};
use rust_proxy::proxy::http::{
    named, read_login, HttpProxy, HttpProxyError, HttpStep, TargetUrl,
};
use rust_proxy::proxy::request::{HttpHeader, HttpRequest, Reading, RequestReader};

const LOGIN_NEEDED: &[u8] = b"HTTP/1.1 407 Proxy Authentication Required\r\nProxy-Authenticate: Basic realm=\"Proxy\"\r\nContent-Length: 0\r\n\r\n";

fn proxy_for(manager: AuthManager) -> HttpProxy {
    HttpProxy::new(Arc::new(manager), 4096, Duration::from_secs(10))
}

fn open_proxy() -> HttpProxy {
    proxy_for(AuthManager::default())
}

/// A proxy where `admin` has an account with the password `password`.
fn guarded_proxy() -> HttpProxy {
    let users = vec![("admin".to_string(), "password".to_string())];
    proxy_for(AuthManager::new(&users).unwrap())
}

fn buffered(bytes: &[u8]) -> BufferedConnection<()> {
    let mut conn = BufferedConnection::new((), 4096);
    conn.read(bytes);
    conn
}

fn first_step(proxy: &HttpProxy, bytes: &[u8]) -> HttpStep {
    proxy.handle_connection(&mut buffered(bytes))
}

fn with_login(credentials: &str) -> Vec<u8> {
    format!(
        "GET http://example.com/ HTTP/1.1\r\nPROXY-Authorization: Basic {}\r\n\r\n",
        STANDARD.encode(credentials)
    )
    .into_bytes()
}

fn request(bytes: &[u8]) -> HttpRequest {
    match RequestReader::new().parse_request(&mut buffered(bytes), ReadEvent::Begin) {
        Reading::Done(Ok(request)) => request,
        _ => panic!("not a whole request"),
    }
}

/// The address that the step connects to, and the bytes that are sent on once it is connected.
fn sent_on(step: HttpStep) -> (String, Vec<u8>) {
    match step {
        HttpStep::Connect(target) => {
            let address = target.address().to_string();
            match target.connected() {
                HttpStep::Send(data) => (address, data),
                _ => panic!("nothing is sent on"),
            }
        }
        _ => panic!("no target is connected"),
    }
}

fn failure(step: HttpStep) -> HttpProxyError {
    match step {
        HttpStep::Fail(error) => error,
        _ => panic!("the step does not fail"),
    }
}

fn refusal(step: HttpStep) -> HttpProxyError {
    match step {
        HttpStep::Refuse(reply, error) => {
            assert_eq!(reply, LOGIN_NEEDED);
            error
        }
        _ => panic!("the client is not told to log in"),
    }
}

#[test]
fn get_is_sent_on_with_a_relative_path() {
    let step = first_step(
        &open_proxy(),
        b"GET http://example.com/a/b?x=1&y=2 HTTP/1.1\r\nHost: example.com\r\n\r\n",
    );
    let (address, data) = sent_on(step);
    assert_eq!(address, "example.com:80");
    assert_eq!(
        data,
        b"GET /a/b?x=1&y=2 HTTP/1.1\r\nHost: example.com\r\nConnection: close\r\n\r\n"
    );
}

#[test]
fn headers_between_client_and_proxy_stay_here() {
    let step = first_step(
        &open_proxy(),
        b"POST http://example.com:8080 HTTP/1.0\r\n\
          X-First:  1 \r\n\
          Proxy-Connection: keep-alive\r\n\
          proxy-authorization: Basic eA==\r\n\
          Connection: keep-alive\r\n\
          no header at all\r\n\
          cOnTent-LENGTH: 5\r\n\
          X-first: 2\r\n\r\nhelloGET / more",
    );
    let (address, data) = sent_on(step);
    assert_eq!(address, "example.com:8080");
    assert_eq!(
        data,
        b"POST / HTTP/1.0\r\nX-First: 1\r\ncOnTent-LENGTH: 5\r\nX-first: 2\r\n\
          Connection: close\r\n\r\nhello"
    );
}

#[test]
fn a_login_makes_no_difference_to_the_target() {
    let with = request(b"GET http://a/ HTTP/1.1\r\nA: 1\r\nProxy-Authorization: x\r\nB: 2\r\n\r\n");
    let without = request(b"GET http://a/ HTTP/1.1\r\nA: 1\r\nB: 2\r\n\r\n");
    assert_eq!(with.to_target("/"), without.to_target("/"));
}

#[test]
fn the_target_reads_the_request_that_was_sent_on() {
    let first = request(
        b"PUT http://a/p?q HTTP/1.1\r\nHost: a\r\nContent-Length: 3\r\nX: \xc3\xa9 y\r\n\r\nabc",
    );
    let again = request(&first.to_target("/p?q"));
    assert_eq!(again.method(), "PUT");
    assert_eq!(again.path(), "/p?q");
    assert_eq!(again.version(), "HTTP/1.1");
    assert_eq!(again.body(), b"abc");
    let headers: Vec<(&str, &str)> =
        again.headers().iter().map(|h| (h.name(), h.value())).collect();
    assert_eq!(
        headers,
        vec![
            ("Host", "a"),
            ("Content-Length", "3"),
            ("X", "\u{e9} y"),
            ("Connection", "close"),
        ]
    );
}

#[test]
fn request_comes_out_whole_whatever_the_chunks() {
    let bytes: &[u8] =
        b"POST http://a/ HTTP/1.1\r\nHost: a\r\nContent-Length: 4\r\n\r\nbody and more";
    let proxy = open_proxy();
    let (address, whole) = sent_on(first_step(&proxy, bytes));
    assert_eq!(address, "a:80");
    for size in 1..bytes.len() {
        let mut conn = BufferedConnection::new((), 4096);
        let mut step = proxy.handle_connection(&mut conn);
        let mut delivered = 0;
        for chunk in bytes.chunks(size) {
            match step {
                HttpStep::Read(reader) => {
                    delivered += chunk.len();
                    step = proxy.received(reader, &mut conn, chunk);
                }
                _ => break,
            }
        }
        let (address, data) = sent_on(step);
        assert_eq!(address, "a:80");
        assert_eq!(data, whole);
        assert_eq!(delivered - conn.buffer_len(), bytes.len() - b" and more".len());
    }
}

#[test]
fn bytes_behind_a_request_stay_in_the_buffer() {
    let mut conn = buffered(b"CONNECT example.com:443 HTTP/1.1\r\n\r\n\x16\x03\x01");
    match open_proxy().handle_connection(&mut conn) {
        HttpStep::Connect(target) => {
            assert_eq!(target.address(), "example.com:443");
            match target.connected() {
                HttpStep::Tunnel(reply) => {
                    assert_eq!(reply, b"HTTP/1.1 200 Connection Established\r\n\r\n")
                }
                _ => panic!("no tunnel"),
            }
        }
        _ => panic!("no target is connected"),
    }
    assert_eq!(conn.buffer_slice(3), Some(&b"\x16\x03\x01"[..]));
    assert_eq!(conn.buffer_len(), 3);
}

#[test]
fn every_forwarded_method_is_served() {
    for method in ["GET", "POST", "PUT", "DELETE", "HEAD", "OPTIONS", "PATCH"] {
        let bytes = format!("{method} https://a/ HTTP/1.1\r\n\r\n");
        let (address, data) = sent_on(first_step(&open_proxy(), bytes.as_bytes()));
        assert_eq!(address, "a:443");
        assert_eq!(
            data,
            format!("{method} / HTTP/1.1\r\nConnection: close\r\n\r\n").into_bytes()
        );
    }
}

#[test]
fn other_methods_are_not_served() {
    for method in ["TRACE", "get", "CONNECT2", "Connect"] {
        let bytes = format!("{method} http://a/ HTTP/1.1\r\n\r\n");
        let error = failure(first_step(&open_proxy(), bytes.as_bytes()));
        assert!(matches!(error, HttpProxyError::UnsupportedMethod(m) if m == method));
    }
}

#[test]
fn targets_that_are_no_url() {
    let error = failure(first_step(&open_proxy(), b"GET /relative HTTP/1.1\r\n\r\n"));
    assert!(matches!(
        error,
        HttpProxyError::InvalidUrl(url::ParseError::RelativeUrlWithoutBase)
    ));
    let error = failure(first_step(&open_proxy(), b"GET mailto:a@b HTTP/1.1\r\n\r\n"));
    assert!(matches!(error, HttpProxyError::InvalidRequest(text) if text == "No host in URL"));
    let error = failure(first_step(&open_proxy(), b"GET foo://host/ HTTP/1.1\r\n\r\n"));
    assert!(matches!(error, HttpProxyError::InvalidRequest(text) if text == "No port in URL"));
}

#[test]
fn malformed_requests() {
    let invalid = |bytes: &[u8]| match failure(first_step(&open_proxy(), bytes)) {
        HttpProxyError::InvalidRequest(text) => text,
        other => panic!("{other:?}"),
    };
    assert_eq!(invalid(b"GET http://a/\r\n\r\n"), "Invalid HTTP request line");
    assert_eq!(invalid(b"\r\n"), "Invalid HTTP request line");
    assert_eq!(
        invalid(b"GET http://a/ HTTP/1.1\r\nContent-Length: five\r\n\r\n"),
        "Invalid Content-Length"
    );
    assert_eq!(
        invalid(b"GET http://a/ HTTP/1.1\r\nContent-Length: -1\r\nContent-Length: 1\r\n\r\n"),
        "Invalid Content-Length"
    );
    let error = failure(first_step(&open_proxy(), b"GET \xff HTTP/1.1\r\n"));
    assert!(matches!(error, HttpProxyError::IoError(ConnError::InvalidLine(_))));
}

#[test]
fn words_of_the_first_line_stand_anywhere_in_it() {
    let request = request(b"  GET \t http://a/   HTTP/1.1  and more\r\n\r\n");
    assert_eq!(request.method(), "GET");
    assert_eq!(request.path(), "http://a/");
    assert_eq!(request.version(), "HTTP/1.1");
}

#[test]
fn a_client_that_ends_early() {
    let proxy = open_proxy();
    for (bytes, in_body) in [
        (&b"GET http"[..], false),
        (&b"GET http://a/ HTTP/1.1\r\nHost"[..], false),
        (&b"GET http://a/ HTTP/1.1\r\nContent-Length: 9\r\n\r\nab"[..], true),
    ] {
        let mut conn = buffered(bytes);
        let reader = match proxy.handle_connection(&mut conn) {
            HttpStep::Read(reader) => reader,
            _ => panic!("the request is not whole"),
        };
        match failure(proxy.received(reader, &mut conn, b"")) {
            HttpProxyError::IoError(ConnError::ConnectionClosed) => assert!(in_body),
            HttpProxyError::IoError(ConnError::ClosedBeforeLineEnd) => assert!(!in_body),
            other => panic!("{other:?}"),
        }
    }
}

#[test]
fn headers_are_found_whatever_the_case() {
    let request = request(b"GET / HTTP/1.1\r\nX-Name: first\r\nx-name: second\r\nEmpty:\r\n\r\n");
    assert_eq!(request.get_header("x-NAME"), Some("first"));
    assert_eq!(request.get_header("empty"), Some(""));
    assert_eq!(request.get_header("other"), None);
    let header = HttpHeader::parse(" \u{130}-A : b:c ").unwrap();
    assert_eq!(header.name(), "\u{130}-A");
    assert_eq!(header.name_lower(), "\u{130}-A".to_lowercase());
    assert_eq!(header.value(), "b:c");
    assert!(HttpHeader::parse("no colon").is_none());
}

#[test]
fn strangers_are_told_to_log_in() {
    let proxy = guarded_proxy();
    for bytes in [
        b"GET http://example.com/ HTTP/1.1\r\n\r\n".to_vec(),
        b"CONNECT example.com:443 HTTP/1.1\r\n\r\n".to_vec(),
        b"GET http://a/ HTTP/1.1\r\nProxy-Authorization: Bearer x\r\n\r\n".to_vec(),
        b"GET http://a/ HTTP/1.1\r\nProxy-Authorization: basic eA==\r\n\r\n".to_vec(),
        with_login("nobody:password"),
        with_login("no colon"),
    ] {
        assert!(matches!(
            refusal(first_step(&proxy, &bytes)),
            HttpProxyError::ProxyAuthRequired
        ));
    }
}

#[test]
fn malformed_credentials() {
    let proxy = guarded_proxy();
    let error = failure(first_step(
        &proxy,
        b"GET http://a/ HTTP/1.1\r\nProxy-Authorization: Basic !!!\r\n\r\n",
    ));
    assert!(matches!(error, HttpProxyError::InvalidBase64(_)));
    let bytes = format!(
        "GET http://a/ HTTP/1.1\r\nProxy-Authorization: Basic {}\r\n\r\n",
        STANDARD.encode(b"\xff:x")
    );
    let error = failure(first_step(&proxy, bytes.as_bytes()));
    match error {
        HttpProxyError::InvalidUtf8(e) => assert_eq!(e.as_bytes(), b"\xff:x"),
        other => panic!("{other:?}"),
    }
}

#[test]
fn a_registered_user_is_served() {
    let proxy = guarded_proxy();
    let checking = match first_step(&proxy, &with_login("admin:password")) {
        HttpStep::Check(checking) => checking,
        _ => panic!("the password has to be checked"),
    };
    let outcome = checking.check().run();
    let (address, data) = sent_on(proxy.checked(checking, Some(outcome)));
    assert_eq!(address, "example.com:80");
    assert_eq!(data, b"GET / HTTP/1.1\r\nConnection: close\r\n\r\n");
}

#[test]
fn a_wrong_password_is_refused() {
    let proxy = guarded_proxy();
    let checking = match first_step(&proxy, &with_login("admin:pass:word")) {
        HttpStep::Check(checking) => checking,
        _ => panic!("the password has to be checked"),
    };
    let outcome = checking.check().run();
    assert!(matches!(outcome, Ok(false)));
    assert!(matches!(
        refusal(proxy.checked(checking, Some(outcome))),
        HttpProxyError::ProxyAuthRequired
    ));
}

#[test]
fn a_check_without_an_answer_is_refused() {
    let mut manager = AuthManager::default();
    manager.store("admin", Ok("no hash".to_string())).unwrap();
    let proxy = proxy_for(manager);
    for lost in [false, true] {
        let checking = match first_step(&proxy, &with_login("admin:password")) {
            HttpStep::Check(checking) => checking,
            _ => panic!("the password has to be checked"),
        };
        let outcome = if lost { None } else { Some(checking.check().run()) };
        match refusal(proxy.checked(checking, outcome)) {
            HttpProxyError::AuthenticationFailed(AuthError::AuthenticationFailed) => assert!(lost),
            HttpProxyError::AuthenticationFailed(AuthError::HashingError(
                bcrypt::BcryptError::InvalidHash(hash),
            )) => {
                assert!(!lost);
                assert_eq!(hash, "no hash");
            }
            other => panic!("{other:?}"),
        }
    }
}

#[test]
fn logins_are_not_looked_at_without_accounts() {
    let step = first_step(
        &open_proxy(),
        b"GET http://a/ HTTP/1.1\r\nProxy-Authorization: Basic !!!\r\n\r\n",
    );
    assert_eq!(sent_on(step).0, "a:80");
}

#[test]
fn decoded_credentials() {
    let login = read_login(b"user:pa:ss".to_vec()).unwrap();
    assert_eq!(login, Some(("user".to_string(), "pa:ss".to_string())));
    assert_eq!(read_login(b"nothing".to_vec()).unwrap(), None);
    assert!(matches!(read_login(vec![0xff]), Err(HttpProxyError::InvalidUtf8(_))));
}

#[test]
fn plain_http_goes_over_tls_with_upgrade() {
    let mut proxy = open_proxy();
    proxy.set_upgrade(true);
    for (path, address) in [
        ("http://example.com/?u=http://b/", "example.com:443"),
        ("http://example.com:8080/?u=http://b/", "example.com:8080"),
        ("HTTP://example.com/?u=http://b/", "example.com:80"),
    ] {
        let bytes = format!("GET {path} HTTP/1.1\r\n\r\n");
        match first_step(&proxy, bytes.as_bytes()) {
            HttpStep::Connect(target) => {
                assert_eq!(target.address(), address);
                assert_eq!(target.method(), "GET");
                assert_eq!(target.path(), path);
                match target.connected() {
                    HttpStep::Secure(name, data) => {
                        assert_eq!(name.to_str(), "example.com");
                        assert_eq!(
                            data,
                            b"GET /?u=http://b/ HTTP/1.1\r\nConnection: close\r\n\r\n"
                        );
                    }
                    _ => panic!("no TLS"),
                }
            }
            _ => panic!("no target is connected"),
        }
    }
}

#[test]
fn other_targets_are_reached_as_asked_with_upgrade() {
    let mut proxy = open_proxy();
    proxy.set_upgrade(true);
    let (address, _) = sent_on(first_step(&proxy, b"GET https://a:1/ HTTP/1.1\r\n\r\n"));
    assert_eq!(address, "a:1");
}

#[test]
fn a_host_that_tls_cannot_name() {
    let mut proxy = open_proxy();
    proxy.set_upgrade(true);
    match first_step(&proxy, b"GET http://a_b-/ HTTP/1.1\r\n\r\n") {
        HttpStep::Connect(target) => {
            assert!(matches!(failure(target.connected()), HttpProxyError::InvalidDnsName(_)))
        }
        _ => panic!("no target is connected"),
    }
    let bad = rustls::pki_types::ServerName::try_from("".to_string());
    assert!(matches!(failure(named(bad, Vec::new())), HttpProxyError::InvalidDnsName(_)));
}

#[test]
fn a_url_is_taken_as_it_was_read() {
    let mut proxy = open_proxy();
    let asked = request(b"GET http://ignored/ HTTP/1.1\r\n\r\n");
    let url = |port: Option<u16>| {
        Ok(TargetUrl {
            scheme: "http".to_string(),
            host: Some("h".to_string()),
            path: "/p".to_string(),
            query: Some("q".to_string()),
            port,
        })
    };
    let (address, data) = sent_on(proxy.forward(&asked, url(Some(7))));
    assert_eq!(address, "h:7");
    assert_eq!(data, b"GET /p?q HTTP/1.1\r\nConnection: close\r\n\r\n");
    assert!(matches!(
        failure(proxy.forward(&asked, url(None))),
        HttpProxyError::InvalidRequest(_)
    ));
    proxy.set_upgrade(true);
    match proxy.secure(&asked, "h".to_string(), b"data".to_vec(), url(None)) {
        HttpStep::Connect(target) => assert_eq!(target.address(), "h:443"),
        _ => panic!("no target is connected"),
    }
    let empty = Err(url::ParseError::EmptyHost);
    let error = failure(proxy.secure(&asked, "h".to_string(), Vec::new(), empty));
    assert!(matches!(error, HttpProxyError::InvalidUrl(url::ParseError::EmptyHost)));
}

#[test]
fn proxy_settings() {
    let proxy = open_proxy();
    assert_eq!(proxy.buffer_size(), 4096);
    assert_eq!(proxy.connect_timeout(), Duration::from_secs(10));
    assert_eq!(proxy.base_path(), None);
    let based = HttpProxy::new_with_base_path(
        Arc::new(AuthManager::default()),
        1,
        Duration::from_secs(2),
        Arc::new("/base".to_string()),
    );
    assert_eq!(based.buffer_size(), 1);
    assert_eq!(based.connect_timeout(), Duration::from_secs(2));
    assert_eq!(based.base_path(), Some("/base"));
}

fn based_proxy(base: &str) -> HttpProxy {
    HttpProxy::new_with_base_path(
        Arc::new(AuthManager::default()),
        4096,
        Duration::from_secs(10),
        Arc::new(base.to_string()),
    )
}

#[test]
fn relative_paths_come_behind_the_base_path() {
    for base in ["http://backend:8080/api", "http://backend:8080/api/"] {
        let proxy = based_proxy(base);
        assert_eq!(proxy.target("/a?b"), "http://backend:8080/api/a?b");
        let (address, data) = sent_on(first_step(&proxy, b"GET /a?b HTTP/1.1\r\nHost: x\r\n\r\n"));
        assert_eq!(address, "backend:8080");
        assert_eq!(data, b"GET /api/a?b HTTP/1.1\r\nHost: x\r\nConnection: close\r\n\r\n");
    }
    let (address, data) = sent_on(first_step(&based_proxy("http://h"), b"GET //x/ HTTP/1.1\r\n\r\n"));
    assert_eq!(address, "h:80");
    assert_eq!(data, b"GET //x/ HTTP/1.1\r\nConnection: close\r\n\r\n");
}

#[test]
fn other_paths_do_not_come_behind_the_base_path() {
    let proxy = based_proxy("http://backend/api");
    let (address, data) = sent_on(first_step(&proxy, b"GET http://a/b HTTP/1.1\r\n\r\n"));
    assert_eq!(address, "a:80");
    assert_eq!(data, b"GET /b HTTP/1.1\r\nConnection: close\r\n\r\n");
    match first_step(&proxy, b"CONNECT a:443 HTTP/1.1\r\n\r\n") {
        HttpStep::Connect(target) => assert_eq!(target.address(), "a:443"),
        _ => panic!("no target is connected"),
    }
    let error = failure(first_step(&proxy, b"OPTIONS * HTTP/1.1\r\n\r\n"));
    assert!(matches!(error, HttpProxyError::InvalidUrl(_)));
    assert_eq!(open_proxy().target("/a"), "/a");
}

#[test]
fn relative_paths_go_over_tls_with_upgrade() {
    let mut proxy = based_proxy("http://backend");
    proxy.set_upgrade(true);
    match first_step(&proxy, b"GET /?u=http://b/ HTTP/1.1\r\n\r\n") {
        HttpStep::Connect(target) => {
            assert_eq!(target.address(), "backend:443");
            assert_eq!(target.path(), "/?u=http://b/");
            assert!(matches!(target.connected(), HttpStep::Secure(..)));
        }
        _ => panic!("no target is connected"),
    }
}

#[test]
fn a_base_path_that_is_no_url() {
    let error = failure(first_step(&based_proxy("/api"), b"GET /a HTTP/1.1\r\n\r\n"));
    assert!(matches!(
        error,
        HttpProxyError::InvalidUrl(url::ParseError::RelativeUrlWithoutBase)
    ));
}
