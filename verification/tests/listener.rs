use std::sync::Arc;
use std::time::Duration;

use rust_proxy::common::auth::AuthManager;
use rust_proxy::net::conn::BufferedConnection;
use rust_proxy::proxy::http::{HttpProxyError, HttpStep};
use rust_proxy::proxy::tcp::{AcceptEvent, AcceptStep, Protocol, TcpProxy, TcpProxyError, Terms};

fn listener(max_connections: usize) -> TcpProxy {
    TcpProxy::new(
        Arc::new(AuthManager::default()),
        512,
        max_connections,
        Duration::from_secs(3),
    )
}

fn terms(proxy: &mut TcpProxy) -> Terms {
    match proxy.run(AcceptEvent::Accepted) {
        AcceptStep::Serve(terms) => terms,
        _ => panic!("there is room"),
    }
}

fn conn() -> BufferedConnection<()> {
    BufferedConnection::new((), 512)
}

#[test]
fn the_first_byte_tells_the_protocol() {
    let mut proxy = listener(256);
    for first in 0..=255u8 {
        let mut conn = conn();
        let found = TcpProxy::handle_connection(&mut conn, &[first, b'x'], terms(&mut proxy));
        match first {
            0x05 => assert!(matches!(found, Ok(Protocol::Socks5(..)))),
            b'A'..=b'Z' | b'a'..=b'z' => assert!(matches!(found, Ok(Protocol::Http(_)))),
            other => assert!(
                matches!(found, Err(TcpProxyError::UnsupportedProtocol(byte)) if byte == other)
            ),
        }
        assert_eq!(conn.buffer_slice(2), Some(&[first, b'x'][..]));
        assert_eq!(conn.buffer_len(), 2);
    }
}

#[test]
fn a_client_that_sends_nothing() {
    let found = TcpProxy::handle_connection(&mut conn(), b"", terms(&mut listener(1)));
    assert!(matches!(found, Err(TcpProxyError::NoDataReceived)));
}

#[test]
fn settings_are_handed_on() {
    let mut proxy = listener(3);
    let given = terms(&mut proxy);
    assert_eq!(given.buffer_size, 512);
    match TcpProxy::handle_connection(&mut conn(), b"GET", given) {
        Ok(Protocol::Http(http)) => {
            assert_eq!(http.buffer_size(), 512);
            assert_eq!(http.connect_timeout(), Duration::from_secs(3));
            assert_eq!(http.base_path(), None);
        }
        _ => panic!("not HTTP"),
    }
    proxy.set_base_path("/base".to_string());
    match TcpProxy::handle_connection(&mut conn(), b"GET", terms(&mut proxy)) {
        Ok(Protocol::Http(http)) => {
            assert_eq!(http.buffer_size(), 512);
            assert_eq!(http.base_path(), Some("/base"));
        }
        _ => panic!("not HTTP"),
    }
    match TcpProxy::handle_connection(&mut conn(), b"\x05", terms(&mut proxy)) {
        Ok(Protocol::Socks5(manager, timeout)) => {
            assert!(!manager.has_users());
            assert_eq!(timeout, Duration::from_secs(3));
        }
        _ => panic!("not SOCKS5"),
    }
}

#[test]
fn sniffed_bytes_are_served() {
    let mut conn = conn();
    let bytes = b"GET http://a/ HTTP/1.1\r\n\r\n";
    match TcpProxy::handle_connection(&mut conn, bytes, terms(&mut listener(1))) {
        Ok(Protocol::Http(http)) => match http.handle_connection(&mut conn) {
            HttpStep::Connect(target) => assert_eq!(target.address(), "a:80"),
            _ => panic!("no target is connected"),
        },
        _ => panic!("not HTTP"),
    }
    assert!(!conn.has_data());
}

#[test]
fn default_listener() {
    let mut proxy = TcpProxy::default();
    match TcpProxy::handle_connection(&mut conn(), b"g", terms(&mut proxy)) {
        Ok(Protocol::Http(http)) => {
            assert_eq!(http.connect_timeout(), Duration::from_secs(10));
            assert_eq!(http.buffer_size(), 4096);
        }
        _ => panic!("not HTTP"),
    }
    for _ in 1..1024 {
        terms(&mut proxy);
    }
    assert!(matches!(proxy.run(AcceptEvent::Accepted), AcceptStep::Reject));
}

#[test]
fn no_more_clients_than_there_may_be() {
    let mut proxy = listener(2);
    terms(&mut proxy);
    terms(&mut proxy);
    assert!(matches!(proxy.run(AcceptEvent::Accepted), AcceptStep::Reject));
    assert!(matches!(proxy.run(AcceptEvent::Accepted), AcceptStep::Reject));
    assert!(matches!(proxy.run(AcceptEvent::Ended), AcceptStep::Wait));
    terms(&mut proxy);
    assert!(matches!(proxy.run(AcceptEvent::Accepted), AcceptStep::Reject));
}

#[test]
fn ends_make_no_room_beyond_the_limit() {
    let mut proxy = listener(1);
    for _ in 0..3 {
        assert!(matches!(proxy.run(AcceptEvent::Ended), AcceptStep::Wait));
    }
    terms(&mut proxy);
    assert!(matches!(proxy.run(AcceptEvent::Accepted), AcceptStep::Reject));
}

#[test]
fn other_events_take_no_place() {
    let mut proxy = listener(1);
    assert!(matches!(proxy.run(AcceptEvent::Failed), AcceptStep::Pause(100)));
    assert!(matches!(proxy.run(AcceptEvent::Interrupted), AcceptStep::Stop));
    terms(&mut proxy);
}

#[test]
fn http_errors_become_listener_errors() {
    let error = TcpProxyError::from(HttpProxyError::ProxyAuthRequired);
    assert!(matches!(
        error,
        TcpProxyError::HttpProxyError(HttpProxyError::ProxyAuthRequired)
    ));
}
