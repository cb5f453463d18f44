use bytes::Bytes;
use my_redis::connection::{Connection, ConnectionError};
use my_redis::frame::{encode_frame, write_decimal, RespFrame, WriteError};

#[test]
fn decimal_text_of_numbers() {
    assert_eq!(write_decimal(0), b"0".to_vec());
    assert_eq!(write_decimal(7), b"7".to_vec());
    assert_eq!(write_decimal(12345), b"12345".to_vec());
    assert_eq!(write_decimal(u64::MAX), b"18446744073709551615".to_vec());
}

#[test]
fn encodes_simple_and_error_frames() {
    assert_eq!(encode_frame(&RespFrame::Simple("OK".to_string())).unwrap(), b"+OK\r\n".to_vec());
    assert_eq!(encode_frame(&RespFrame::Error("ERR bad".to_string())).unwrap(), b"-ERR bad\r\n".to_vec());
    assert_eq!(encode_frame(&RespFrame::Simple("é".to_string())).unwrap(), vec![b'+', 0xC3, 0xA9, b'\r', b'\n']);
}

#[test]
fn encodes_integer_null_and_bulk_frames() {
    assert_eq!(encode_frame(&RespFrame::Integer(42)).unwrap(), b":42\r\n".to_vec());
    assert_eq!(encode_frame(&RespFrame::Null).unwrap(), b"$-1\r\n".to_vec());
    assert_eq!(encode_frame(&RespFrame::Bulk(Bytes::from("hello"))).unwrap(), b"$5\r\nhello\r\n".to_vec());
    assert_eq!(encode_frame(&RespFrame::Bulk(Bytes::new())).unwrap(), b"$0\r\n\r\n".to_vec());
}

#[test]
fn array_frames_are_refused() {
    let frame = RespFrame::Array(vec![RespFrame::Null]);
    assert_eq!(encode_frame(&frame), Err(WriteError::ArrayUnsupported));
}

#[test]
fn write_frame_queues_encodings_in_order() {
    let mut conn = Connection::new();
    conn.write_frame(&RespFrame::Simple("OK".to_string())).unwrap();
    conn.write_frame(&RespFrame::Integer(3)).unwrap();
    assert_eq!(conn.write_frame(&RespFrame::Array(vec![])), Err(WriteError::ArrayUnsupported));
    assert_eq!(conn.take_output(), b"+OK\r\n:3\r\n".to_vec());
    assert_eq!(conn.take_output(), Vec::<u8>::new());
}

#[test]
fn parses_a_received_frame_and_consumes_it() {
    let mut conn = Connection::new();
    conn.receive(b"+OK\r\n:12\r\n");
    match conn.parse_frame() {
        Ok(Some(RespFrame::Simple(s))) => assert_eq!(s, "OK"),
        _ => panic!("unexpected outcome"),
    }
    match conn.parse_frame() {
        Ok(Some(RespFrame::Integer(n))) => assert_eq!(n, 12),
        _ => panic!("unexpected outcome"),
    }
    assert!(matches!(conn.parse_frame(), Ok(None)));
    assert!(matches!(conn.end_of_stream(), Ok(None)));
}

#[test]
fn partial_frame_waits_for_more_bytes() {
    let mut conn = Connection::new();
    conn.receive(b"$5\r\nhel");
    assert!(matches!(conn.parse_frame(), Ok(None)));
    assert!(matches!(conn.end_of_stream(), Err(ConnectionError::ConnectionReset)));
    conn.receive(b"lo\r\n");
    match conn.parse_frame() {
        Ok(Some(RespFrame::Bulk(b))) => assert_eq!(&b[..], b"hello"),
        _ => panic!("unexpected outcome"),
    }
    assert!(matches!(conn.end_of_stream(), Ok(None)));
}

#[test]
fn array_frame_is_read_whole() {
    let mut conn = Connection::new();
    conn.receive(b"*2\r\n$3\r\nGET\r\n$3\r\nfoo\r\n");
    match conn.parse_frame() {
        Ok(Some(RespFrame::Array(parts))) => {
            assert_eq!(parts.len(), 2);
            assert!(matches!(&parts[0], RespFrame::Bulk(b) if &b[..] == b"GET"));
            assert!(matches!(&parts[1], RespFrame::Bulk(b) if &b[..] == b"foo"));
        },
        _ => panic!("unexpected outcome"),
    }
}

#[test]
fn invalid_frame_is_an_error_and_keeps_the_bytes() {
    let mut conn = Connection::new();
    conn.receive(b"?what\r\n");
    assert!(matches!(conn.parse_frame(), Err(ConnectionError::InvalidFrame)));
    assert!(matches!(conn.parse_frame(), Err(ConnectionError::InvalidFrame)));
    assert!(matches!(conn.end_of_stream(), Err(ConnectionError::ConnectionReset)));
}

#[test]
fn malformed_utf8_simple_frame_is_an_error() {
    let mut conn = Connection::new();
    conn.receive(b"+\xff\xfe\r\n");
    assert!(matches!(conn.parse_frame(), Err(ConnectionError::InvalidFrame)));
}

#[test]
fn null_bulk_frame_is_read() {
    let mut conn = Connection::new();
    conn.receive(b"$-1\r\n");
    assert!(matches!(conn.parse_frame(), Ok(Some(RespFrame::Null))));
}

#[test]
fn oversized_bulk_length_is_detected() {
    let mut conn = Connection::new();
    conn.receive(b"$18446744073709551615\r\n");
    assert!(conn.has_oversized_bulk_header());
    let mut ok = Connection::new();
    ok.receive(b"$1844674407370955161\r\n");
    assert!(!ok.has_oversized_bulk_header());
    assert!(matches!(ok.parse_frame(), Ok(None)));
}

#[test]
fn end_of_stream_on_empty_connection() {
    let conn = Connection::new();
    assert!(matches!(conn.end_of_stream(), Ok(None)));
}

#[test]
fn only_headers_the_parser_reads_can_overflow() {
    let mut payload = Connection::new();
    payload.receive(b"$21\r\n$18446744073709551615\r\n");
    assert!(!payload.has_oversized_bulk_header());
    match payload.parse_frame() {
        Ok(Some(RespFrame::Bulk(b))) => assert_eq!(&b[..], b"$18446744073709551615"),
        _ => panic!("unexpected outcome"),
    }
    let mut after = Connection::new();
    after.receive(b"+OK\r\n$18446744073709551615\r\n");
    assert!(!after.has_oversized_bulk_header());
    assert!(matches!(after.parse_frame(), Ok(Some(RespFrame::Simple(ref s))) if s == "OK"));
    assert!(after.has_oversized_bulk_header());
    let mut nested = Connection::new();
    nested.receive(b"*2\r\n+a\r\n$18446744073709551614\r\n");
    assert!(nested.has_oversized_bulk_header());
    let mut ok = Connection::new();
    ok.receive(b"$99999999999999999999999\r\n");
    assert!(!ok.has_oversized_bulk_header());
    assert!(matches!(ok.parse_frame(), Err(ConnectionError::InvalidFrame)));
    let mut open_line = Connection::new();
    open_line.receive(b"$18446744073709551615");
    assert!(!open_line.has_oversized_bulk_header());
    assert!(matches!(open_line.parse_frame(), Ok(None)));
}
