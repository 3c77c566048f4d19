use mudb::resp::frame::RespCommandFrame;
use mudb::resp::types::RespType;
use mudb::resp::RespError;

fn bulk(s: &str) -> RespType {
    RespType::BulkString(s.to_string())
}

fn frame_to_bytes(frame: &[RespType]) -> Vec<u8> {
    let mut out = Vec::new();
    for v in frame {
        out.extend(v.to_bytes());
    }
    out
}

#[test]
fn encode_simple_string() {
    let v = RespType::SimpleString("OK".to_string());
    assert_eq!(v.to_bytes(), b"+OK\r\n".to_vec());
}

#[test]
fn encode_bulk_string() {
    let v = bulk("hello");
    assert_eq!(v.to_bytes(), b"$5\r\nhello\r\n".to_vec());
}

#[test]
fn encode_bulk_string_reports_byte_length() {
    // A two-byte character must be counted as two bytes, not one character.
    let v = bulk("h\u{e9}llo");
    assert_eq!(v.to_bytes(), b"$6\r\nh\xc3\xa9llo\r\n".to_vec());
}

#[test]
fn encode_empty_bulk_string() {
    let v = bulk("");
    assert_eq!(v.to_bytes(), b"$0\r\n\r\n".to_vec());
}

#[test]
fn encode_null_bulk_string() {
    assert_eq!(RespType::NullBulkString.to_bytes(), b"$-1\r\n".to_vec());
}

#[test]
fn encode_integer() {
    assert_eq!(RespType::Integer(1234).to_bytes(), b":1234\r\n".to_vec());
    assert_eq!(RespType::Integer(0).to_bytes(), b":0\r\n".to_vec());
    assert_eq!(RespType::Integer(-42).to_bytes(), b":-42\r\n".to_vec());
}

#[test]
fn encode_integer_extremes() {
    assert_eq!(
        RespType::Integer(i64::MAX).to_bytes(),
        b":9223372036854775807\r\n".to_vec()
    );
    assert_eq!(
        RespType::Integer(i64::MIN).to_bytes(),
        b":-9223372036854775808\r\n".to_vec()
    );
}

#[test]
fn encode_simple_error() {
    let v = RespType::SimpleError("Oops".to_string());
    assert_eq!(v.to_bytes(), b"-Oops\r\n".to_vec());
}

#[test]
fn encode_array() {
    let v = RespType::Array(vec![bulk("GET"), bulk("key")]);
    assert_eq!(v.to_bytes(), b"*2\r\n$3\r\nGET\r\n$3\r\nkey\r\n".to_vec());
}

#[test]
fn encode_empty_array() {
    let v = RespType::Array(vec![]);
    assert_eq!(v.to_bytes(), b"*0\r\n".to_vec());
}

#[test]
fn encode_nested_array() {
    let inner = RespType::Array(vec![bulk("a")]);
    let v = RespType::Array(vec![inner, RespType::Integer(7)]);
    assert_eq!(v.to_bytes(), b"*2\r\n*1\r\n$1\r\na\r\n:7\r\n".to_vec());
}

#[test]
fn clone_keeps_the_value() {
    let v = RespType::Array(vec![bulk("a"), RespType::Integer(-1)]);
    assert_eq!(v.clone().to_bytes(), v.to_bytes());
}

#[test]
fn decode_bulk_string() {
    let (v, consumed) = RespType::new_bulk_string(b"$5\r\nhello\r\n").unwrap();
    assert_eq!(consumed, 11);
    assert_eq!(v.to_bytes(), b"$5\r\nhello\r\n".to_vec());
}

#[test]
fn decode_bulk_string_round_trips_non_ascii() {
    let encoded = bulk("h\u{e9}llo").to_bytes();
    let (v, consumed) = RespType::new_bulk_string(&encoded).unwrap();
    assert_eq!(consumed, encoded.len());
    match v {
        RespType::BulkString(s) => assert_eq!(s, "h\u{e9}llo"),
        _ => panic!("expected a bulk string"),
    }
}

#[test]
fn decode_bulk_string_rejects_bad_utf8() {
    let r = RespType::new_bulk_string(b"$2\r\n\xff\xfe\r\n");
    assert!(matches!(r, Err(RespError::InvalidBulkString(_))));
}

#[test]
fn decode_bulk_string_rejects_truncated_payload() {
    let r = RespType::new_bulk_string(b"$5\r\nhel");
    assert!(matches!(r, Err(RespError::InvalidBulkString(_))));
}

#[test]
fn decode_bulk_string_skips_unchecked_trailer() {
    // The two bytes after the payload are consumed without being inspected.
    let (v, consumed) = RespType::new_bulk_string(b"$3\r\nabcXYz").unwrap();
    assert_eq!(consumed, 9);
    assert_eq!(v.to_bytes(), b"$3\r\nabc\r\n".to_vec());
}

#[test]
fn decode_simple_string() {
    let (v, consumed) = RespType::new_simple_string(b"+OK\r\nrest").unwrap();
    assert_eq!(consumed, 5);
    assert_eq!(v.to_bytes(), b"+OK\r\n".to_vec());
}

#[test]
fn decode_simple_string_needs_a_line() {
    let r = RespType::new_simple_string(b"+OK");
    assert!(matches!(r, Err(RespError::InvalidSimpleString(_))));
}

#[test]
fn decode_simple_string_rejects_bad_utf8() {
    let r = RespType::new_simple_string(b"+\xff\r\n");
    assert!(matches!(r, Err(RespError::InvalidSimpleString(_))));
}

#[test]
fn parse_array_len_reads_header() {
    let r = RespType::parse_array_len(b"*3\r\n$3\r\nfoo\r\n").unwrap();
    assert_eq!(r, Some((3, 4)));
}

#[test]
fn parse_array_len_waits_for_full_line() {
    let r = RespType::parse_array_len(b"*31").unwrap();
    assert_eq!(r, None);
}

#[test]
fn parse_array_len_rejects_wrong_tag() {
    let r = RespType::parse_array_len(b"$3\r\n");
    assert!(matches!(r, Err(RespError::InvalidArray(_))));
}

#[test]
fn parse_array_len_rejects_bad_count() {
    let r = RespType::parse_array_len(b"*x3\r\n");
    assert!(matches!(r, Err(RespError::Other(_))));
}

#[test]
fn parse_bulk_string_len_reads_header() {
    let r = RespType::parse_bulk_string_len(b"$12\r\nrest").unwrap();
    assert_eq!(r, Some((12, 5)));
}

#[test]
fn parse_bulk_string_len_rejects_wrong_tag() {
    let r = RespType::parse_bulk_string_len(b"*2\r\n");
    assert!(matches!(r, Err(RespError::InvalidBulkString(_))));
}

#[test]
fn parse_len_rejects_oversized_number() {
    let r = RespType::parse_bulk_string_len(b"$99999999999999999999999\r\n");
    assert!(matches!(r, Err(RespError::Other(_))));
}

#[test]
fn parse_len_accepts_plus_sign() {
    let r = RespType::parse_bulk_string_len(b"$+3\r\nabc\r\n").unwrap();
    assert_eq!(r, Some((3, 5)));
}

#[test]
fn frame_decoder_assembles_one_command() {
    let mut codec = RespCommandFrame::new();
    let mut buf = b"*2\r\n$4\r\nPING\r\n$5\r\nhello\r\n".to_vec();
    let frame = codec.decode(&mut buf).unwrap().unwrap();
    assert_eq!(buf.len(), 0);
    assert_eq!(
        frame_to_bytes(&frame),
        b"$4\r\nPING\r\n$5\r\nhello\r\n".to_vec()
    );
}

#[test]
fn frame_decoder_reports_need_more_data() {
    let mut codec = RespCommandFrame::new();
    let mut buf = b"*2\r\n$4\r\nPI".to_vec();
    let r = codec.decode(&mut buf).unwrap();
    assert!(r.is_none());
}

#[test]
fn frame_decoder_survives_any_split() {
    let whole = b"*3\r\n$3\r\nSET\r\n$3\r\nkey\r\n$5\r\nvalue\r\n".to_vec();
    let mut reference = RespCommandFrame::new();
    let mut whole_buf = whole.clone();
    let expected = reference.decode(&mut whole_buf).unwrap().unwrap();
    let expected_bytes = frame_to_bytes(&expected);

    for split in 0..whole.len() {
        let mut codec = RespCommandFrame::new();
        let mut buf = whole[..split].to_vec();
        let first = codec.decode(&mut buf).unwrap();
        assert!(first.is_none(), "no frame should be ready at split {}", split);
        buf.extend_from_slice(&whole[split..]);
        let frame = codec.decode(&mut buf).unwrap().unwrap();
        assert_eq!(frame_to_bytes(&frame), expected_bytes, "split {}", split);
        assert_eq!(buf.len(), 0);
    }
}

#[test]
fn frame_decoder_handles_pipelined_commands() {
    let mut codec = RespCommandFrame::new();
    let mut buf = b"*1\r\n$4\r\nPING\r\n*2\r\n$3\r\nGET\r\n$1\r\nk\r\n".to_vec();
    let first = codec.decode(&mut buf).unwrap().unwrap();
    assert_eq!(frame_to_bytes(&first), b"$4\r\nPING\r\n".to_vec());
    let second = codec.decode(&mut buf).unwrap().unwrap();
    assert_eq!(frame_to_bytes(&second), b"$3\r\nGET\r\n$1\r\nk\r\n".to_vec());
    assert_eq!(buf.len(), 0);
}

#[test]
fn frame_decoder_rejects_bad_header() {
    let mut codec = RespCommandFrame::new();
    let mut buf = b"PING\r\n".to_vec();
    let r = codec.decode(&mut buf);
    assert!(r.is_err());
}

#[test]
fn frame_decoder_rejects_non_bulk_part() {
    let mut codec = RespCommandFrame::new();
    let mut buf = b"*1\r\n:5\r\n".to_vec();
    let r = codec.decode(&mut buf);
    assert!(r.is_err());
}

#[test]
fn frame_encoder_writes_value_bytes() {
    let mut codec = RespCommandFrame::new();
    let mut out: Vec<u8> = b"x".to_vec();
    codec.encode(RespType::SimpleString("PONG".to_string()), &mut out);
    assert_eq!(out, b"x+PONG\r\n".to_vec());
}

#[test]
fn frame_error_carries_message() {
    let e = mudb::resp::frame::FrameError::from(RespError::Other("boom".to_string()));
    assert_eq!(e.message(), "boom");
}
