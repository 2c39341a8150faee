use redis_lite::decoder::{NextSnapshot, NextValue, RespParser};
use redis_lite::resp::{create_null_string, serialize_resp_data, RespType};

fn bulk(s: &[u8]) -> RespType {
    RespType::BulkString(Some(s.to_vec()))
}

fn decode_one(bytes: &[u8]) -> NextValue {
    let mut d = RespParser::new();
    d.feed(bytes);
    d.next_value()
}

#[test]
fn encodes_each_kind() {
    assert_eq!(serialize_resp_data(RespType::SimpleString(b"OK".to_vec())), b"+OK\r\n".to_vec());
    assert_eq!(serialize_resp_data(RespType::Error(b"ERR x".to_vec())), b"-ERR x\r\n".to_vec());
    assert_eq!(serialize_resp_data(RespType::Integer(-42)), b":-42\r\n".to_vec());
    assert_eq!(serialize_resp_data(RespType::Integer(i64::MIN)), b":-9223372036854775808\r\n".to_vec());
    assert_eq!(serialize_resp_data(bulk(b"hey")), b"$3\r\nhey\r\n".to_vec());
    assert_eq!(serialize_resp_data(bulk(b"")), b"$0\r\n\r\n".to_vec());
    assert_eq!(serialize_resp_data(RespType::BulkString(None)), b"$-1\r\n".to_vec());
    assert_eq!(serialize_resp_data(RespType::Array(vec![])), b"*0\r\n".to_vec());
    assert_eq!(serialize_resp_data(RespType::NullArray), b"*-1\r\n".to_vec());
    assert_eq!(
        serialize_resp_data(RespType::Array(vec![bulk(b"PING")])),
        b"*1\r\n$4\r\nPING\r\n".to_vec()
    );
}

#[test]
fn null_string_is_minus_one() {
    assert_eq!(create_null_string(), b"$-1\r\n".to_vec());
}

#[test]
fn decodes_boundary_frames() {
    assert_eq!(decode_one(b"$0\r\n\r\n"), NextValue::Value(bulk(b""), 6));
    assert_eq!(decode_one(b"$-1\r\n"), NextValue::Value(RespType::BulkString(None), 5));
    assert_eq!(decode_one(b"*0\r\n"), NextValue::Value(RespType::Array(vec![]), 4));
    assert_eq!(decode_one(b"*-1\r\n"), NextValue::Value(RespType::NullArray, 5));
    assert_eq!(decode_one(b":-7\r\n"), NextValue::Value(RespType::Integer(-7), 5));
    assert_eq!(decode_one(b"-ERR no\r\n"), NextValue::Value(RespType::Error(b"ERR no".to_vec()), 9));
}

#[test]
fn rejects_malformed_frames() {
    assert_eq!(decode_one(b"?x\r\n"), NextValue::Malformed);
    assert_eq!(decode_one(b":12a\r\n"), NextValue::Malformed);
    assert_eq!(decode_one(b"$-2\r\n"), NextValue::Malformed);
    assert_eq!(decode_one(b"$3\r\nabcd\r\n"), NextValue::Malformed);
    assert_eq!(decode_one(b"+OK\rx"), NextValue::Malformed);
    assert_eq!(decode_one(b":99999999999999999999\r\n"), NextValue::Malformed);
}

#[test]
fn waits_for_incomplete_frames() {
    assert_eq!(decode_one(b""), NextValue::NeedMore);
    assert_eq!(decode_one(b"*2\r\n$4\r\nECHO\r\n"), NextValue::NeedMore);
    assert_eq!(decode_one(b"$5\r\nhel"), NextValue::NeedMore);
    assert_eq!(decode_one(b"+OK\r"), NextValue::NeedMore);
}

#[test]
fn split_frame_decodes_like_whole_frame() {
    let whole = b"*2\r\n$4\r\nECHO\r\n$3\r\nhey\r\n";
    let expected = RespType::Array(vec![bulk(b"ECHO"), bulk(b"hey")]);
    for cut in 0..whole.len() {
        let mut d = RespParser::new();
        d.feed(&whole[..cut]);
        assert_eq!(d.next_value(), NextValue::NeedMore, "cut at {}", cut);
        d.feed(&whole[cut..]);
        assert_eq!(d.next_value(), NextValue::Value(expected.clone_value(), whole.len()));
    }
}

trait CloneValue {
    fn clone_value(&self) -> RespType;
}

impl CloneValue for RespType {
    fn clone_value(&self) -> RespType {
        match self {
            RespType::Integer(n) => RespType::Integer(*n),
            RespType::SimpleString(t) => RespType::SimpleString(t.clone()),
            RespType::Error(t) => RespType::Error(t.clone()),
            RespType::BulkString(b) => RespType::BulkString(b.clone()),
            RespType::Array(items) => RespType::Array(items.iter().map(|i| i.clone_value()).collect()),
            RespType::NullArray => RespType::NullArray,
        }
    }
}

#[test]
fn round_trip_of_nested_value() {
    let v = RespType::Array(vec![
        RespType::Integer(12),
        RespType::SimpleString(b"fine".to_vec()),
        RespType::Array(vec![bulk(b"a\r\nb"), RespType::BulkString(None), RespType::NullArray]),
        RespType::Error(b"ERR".to_vec()),
    ]);
    let bytes = serialize_resp_data(v.clone_value());
    let mut d = RespParser::new();
    d.feed(&bytes);
    d.feed(b"+tail");
    assert_eq!(d.next_value(), NextValue::Value(v, bytes.len()));
    assert_eq!(d.pending().clone(), b"+tail".to_vec());
}

#[test]
fn concatenated_frames_decode_in_order() {
    let values = vec![
        RespType::SimpleString(b"PONG".to_vec()),
        bulk(b"x"),
        RespType::Integer(3),
        RespType::Array(vec![bulk(b"SET"), bulk(b"k"), bulk(b"v")]),
    ];
    let mut stream = Vec::new();
    for v in &values {
        stream.extend(serialize_resp_data(v.clone_value()));
    }
    let mut d = RespParser::new();
    d.feed(&stream);
    let mut out = Vec::new();
    loop {
        match d.next_value() {
            NextValue::Value(v, _) => out.push(v),
            NextValue::NeedMore => break,
            NextValue::Malformed => panic!("malformed"),
        }
    }
    assert_eq!(out, values);
}

#[test]
fn snapshot_frame_has_no_trailing_crlf() {
    let mut d = RespParser::new();
    d.feed(b"$3\r\nab");
    assert_eq!(d.process_rdb_file(), NextSnapshot::NeedMore);
    d.feed(b"c*1\r\n$4\r\nPING\r\n");
    assert_eq!(d.process_rdb_file(), NextSnapshot::Payload(b"abc".to_vec()));
    assert_eq!(d.next_value(), NextValue::Value(RespType::Array(vec![bulk(b"PING")]), 14));
}

#[test]
fn snapshot_frame_must_start_with_dollar() {
    let mut d = RespParser::new();
    d.feed(b"+OK\r\n");
    assert_eq!(d.process_rdb_file(), NextSnapshot::Malformed);
}
