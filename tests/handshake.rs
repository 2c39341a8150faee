use redis_lite::handshake::{Handshake, HandshakeState, HandshakeStep};
use redis_lite::resp::RespType;

fn simple(s: &[u8]) -> RespType {
    RespType::SimpleString(s.to_vec())
}

#[test]
fn follower_sends_the_handshake_in_order() {
    let mut h = Handshake::new(6380);
    assert_eq!(h.start(), HandshakeStep::Send(b"*1\r\n$4\r\nPING\r\n".to_vec()));
    assert_eq!(
        h.on_reply(&simple(b"PONG")),
        HandshakeStep::Send(b"*3\r\n$8\r\nREPLCONF\r\n$14\r\nlistening-port\r\n$4\r\n6380\r\n".to_vec())
    );
    assert_eq!(
        h.on_reply(&simple(b"OK")),
        HandshakeStep::Send(b"*3\r\n$8\r\nREPLCONF\r\n$4\r\ncapa\r\n$6\r\npsync2\r\n".to_vec())
    );
    assert_eq!(
        h.on_reply(&simple(b"OK")),
        HandshakeStep::Send(b"*3\r\n$5\r\nPSYNC\r\n$1\r\n?\r\n$2\r\n-1\r\n".to_vec())
    );
    assert_eq!(
        h.on_reply(&simple(b"FULLRESYNC 8371b4fb1155b71f4a04d3e1bc3e18c4a990aeeb 0")),
        HandshakeStep::ReadSnapshot
    );
    assert_eq!(h.on_snapshot(), HandshakeStep::Done);
    assert_eq!(h.state, HandshakeState::Streaming);
}

#[test]
fn handshake_fails_on_unexpected_reply() {
    let mut h = Handshake::new(1);
    h.start();
    h.on_reply(&simple(b"PONG"));
    assert_eq!(h.on_reply(&RespType::Error(b"ERR".to_vec())), HandshakeStep::Fail);
    assert_eq!(h.state, HandshakeState::Failed);
    let mut h = Handshake::new(1);
    h.start();
    h.on_reply(&simple(b"PONG"));
    h.on_reply(&simple(b"OK"));
    h.on_reply(&simple(b"OK"));
    assert_eq!(h.on_reply(&simple(b"CONTINUE")), HandshakeStep::Fail);
}

#[test]
fn snapshot_out_of_turn_fails() {
    let mut h = Handshake::new(1);
    assert_eq!(h.on_snapshot(), HandshakeStep::Fail);
    let mut h = Handshake::new(1);
    h.start();
    assert_eq!(h.start(), HandshakeStep::Fail);
}
