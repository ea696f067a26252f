use rust_proxy::net::conn::{BufferedConnection, ConnError, ReadEvent, Turn};

/// Drives a waiting function over the chunks that a peer sends.
fn drive<T>(
    conn: &mut BufferedConnection<()>,
    chunks: &mut Vec<Vec<u8>>,
    mut call: impl FnMut(&mut BufferedConnection<()>, ReadEvent<'_>) -> Turn<T>,
) -> Result<T, ConnError> {
    let mut turn = call(conn, ReadEvent::Begin);
    loop {
        match turn {
            Turn::Done(result) => return result,
            Turn::Read => {
                let chunk = if chunks.is_empty() {
                    Vec::new()
                } else {
                    chunks.remove(0)
                };
                turn = call(conn, ReadEvent::Received(&chunk));
            }
        }
    }
}

fn exact(conn: &mut BufferedConnection<()>, chunks: &mut Vec<Vec<u8>>, n: usize) -> Vec<u8> {
    drive(conn, chunks, |c, e| c.read_exact_bytes(n, e)).unwrap()
}

fn line(conn: &mut BufferedConnection<()>, chunks: &mut Vec<Vec<u8>>) -> String {
    drive(conn, chunks, |c, e| c.read_line(e)).unwrap()
}

#[test]
fn test_buffered_connection() {
    let mut server_conn = BufferedConnection::new((), 4096);
    let data = exact(&mut server_conn, &mut vec![b"Hello, server!".to_vec()], 14);
    assert_eq!(data, b"Hello, server!");

    let mut client_conn = BufferedConnection::new((), 4096);
    let data = exact(&mut client_conn, &mut vec![b"Hello, client!".to_vec()], 14);
    assert_eq!(data, b"Hello, client!");
}

#[test]
fn test_read_line() {
    let mut server_conn = BufferedConnection::new((), 4096);
    let mut sent = vec![b"GET / HTTP/1.1\r\nHost: example.com\r\n\r\n".to_vec()];

    let line1 = line(&mut server_conn, &mut sent);
    assert_eq!(line1, "GET / HTTP/1.1");

    let line2 = line(&mut server_conn, &mut sent);
    assert_eq!(line2, "Host: example.com");

    let line3 = line(&mut server_conn, &mut sent);
    assert_eq!(line3, "");
}

#[test]
fn test_unread() {
    let mut server_conn = BufferedConnection::new((), 4096);
    let mut sent = vec![b"\x05\x01\x00".to_vec()];

    let first = exact(&mut server_conn, &mut sent, 1);
    assert_eq!(first[0], 0x05);

    server_conn.unread(&first);
    assert!(server_conn.has_data());

    let all = exact(&mut server_conn, &mut sent, 3);
    assert_eq!(all, b"\x05\x01\x00");
}

#[test]
fn line_comes_out_whole_whatever_the_chunks() {
    let bytes = "caf\u{e9} \r x\r\nrest".as_bytes().to_vec();
    for cut in 1..bytes.len() {
        let mut conn = BufferedConnection::new((), 16);
        let mut sent = vec![bytes[..cut].to_vec(), bytes[cut..].to_vec()];
        assert_eq!(line(&mut conn, &mut sent), "caf\u{e9} \r x");
        let left: usize = sent.iter().map(|c| c.len()).sum();
        assert_eq!(conn.buffer_len() + left, 4);
    }
}

#[test]
fn bytes_come_out_whole_whatever_the_chunks() {
    let mut conn = BufferedConnection::new((), 16);
    let mut sent = vec![b"a".to_vec(), b"bc".to_vec(), b"def".to_vec()];
    assert_eq!(exact(&mut conn, &mut sent, 4), b"abcd");
    assert_eq!(conn.buffer_slice(2), Some(&b"ef"[..]));
    assert_eq!(exact(&mut conn, &mut sent, 0), b"");
    assert_eq!(conn.buffer_len(), 2);
}

#[test]
fn end_of_stream_is_an_error() {
    let mut conn = BufferedConnection::new((), 16);
    let got = drive(&mut conn, &mut vec![b"abc".to_vec()], |c, e| c.read_line(e));
    assert!(matches!(got, Err(ConnError::ClosedBeforeLineEnd)));
    assert_eq!(conn.buffer_len(), 3);
    let got = drive(&mut conn, &mut vec![], |c, e| c.read_exact_bytes(4, e));
    assert!(matches!(got, Err(ConnError::ConnectionClosed)));
    let got = drive(&mut conn, &mut vec![], |c, e| c.ensure_bytes(4, e));
    assert!(matches!(got, Err(ConnError::ConnectionClosed)));
    let got = drive(&mut conn, &mut vec![], |c, e| c.ensure_bytes(3, e));
    assert!(matches!(got, Ok(())));
}

#[test]
fn malformed_line_stays_in_the_buffer() {
    let mut conn = BufferedConnection::new((), 16);
    let got = drive(&mut conn, &mut vec![b"\xff\xfe\r\n".to_vec()], |c, e| c.read_line(e));
    match got {
        Err(ConnError::InvalidLine(e)) => assert_eq!(e.as_bytes(), b"\xff\xfe"),
        _ => panic!("the line is not UTF-8"),
    }
    assert_eq!(conn.buffer_len(), 4);
}

#[test]
fn buffer_operations() {
    let mut conn = BufferedConnection::new("stream", 7);
    assert_eq!(conn.buffer_size(), 7);
    assert_eq!(conn.stream, "stream");
    assert!(!conn.has_data());
    assert_eq!(conn.read(b"abcdef"), 6);
    assert_eq!(conn.read(b""), 0);
    assert_eq!(conn.buffer_slice(7), None);
    assert_eq!(conn.read_from_buffer(7), None);
    assert!(!conn.drain_buffer(7));
    assert_eq!(conn.buffer_len(), 6);
    assert_eq!(conn.read_from_buffer(2), Some(b"ab".to_vec()));
    assert!(conn.drain_buffer(1));
    assert_eq!(conn.buffer_slice(3), Some(&b"def"[..]));
    conn.clear_buffer();
    assert_eq!(conn.buffer_len(), 0);
}

#[test]
fn buffered_bytes_come_before_the_stream() {
    let mut conn = BufferedConnection::new((), 7);
    assert_eq!(conn.poll_read(3), None);
    conn.read(b"abcde");
    assert_eq!(conn.poll_read(3), Some(b"abc".to_vec()));
    assert_eq!(conn.poll_read(0), Some(Vec::new()));
    assert_eq!(conn.poll_read(3), Some(b"de".to_vec()));
    assert_eq!(conn.poll_read(3), None);
}

#[test]
fn reads_of_any_size_get_the_buffer_in_order() {
    for rooms in [vec![1, 1, 1, 1, 1, 1], vec![4, 0, 9], vec![6], vec![100]] {
        let mut conn = BufferedConnection::new((), 7);
        conn.read(b"abcdef");
        let mut got = Vec::new();
        for room in rooms {
            let data = conn.poll_read(room).unwrap();
            assert!(data.len() <= room);
            got.extend_from_slice(&data);
        }
        assert_eq!(got, b"abcdef");
        assert_eq!(conn.poll_read(1), None);
    }
}
