use redis_lite::commands::{parse_command, Command};
use redis_lite::decoder::{NextSnapshot, NextValue, RespParser};
use redis_lite::node::{Action, Connection, Node, RedisState};
use redis_lite::resp::RespType;
use redis_lite::snapshot::{construct_rdb, psync_reply};

fn handle(conn: &mut Connection, node: &mut Node, bytes: &[u8]) -> Action {
    let mut p = RespParser::new();
    p.feed(bytes);
    match p.next_value() {
        NextValue::Value(v, n) => conn.handle_frame(node, v, n as u64, 0),
        other => panic!("{:?}", other),
    }
}

fn decode_all(bytes: &[u8]) -> Vec<RespType> {
    let mut p = RespParser::new();
    p.feed(bytes);
    let mut out = Vec::new();
    while let NextValue::Value(v, _) = p.next_value() {
        out.push(v);
    }
    out
}

#[test]
fn every_follower_gets_every_write_in_order() {
    let mut node = Node::new(RedisState::Master, b"id".to_vec(), Vec::new());
    let psync = b"*3\r\n$5\r\nPSYNC\r\n$1\r\n?\r\n$2\r\n-1\r\n";
    let mut f1 = Connection::client(10);
    let mut f2 = Connection::client(11);
    assert_eq!(handle(&mut f1, &mut node, psync), Action::Promoted);
    assert_eq!(handle(&mut f2, &mut node, psync), Action::Promoted);
    node.registry.take_outbox(10);
    node.registry.take_outbox(11);

    let mut a = Connection::client(1);
    let mut b = Connection::client(2);
    let w1 = b"*3\r\n$3\r\nSET\r\n$1\r\na\r\n$1\r\n1\r\n";
    let read = b"*2\r\n$3\r\nGET\r\n$1\r\na\r\n";
    let w2 = b"*5\r\n$3\r\nSET\r\n$1\r\nb\r\n$1\r\n2\r\n$2\r\npx\r\n$2\r\n50\r\n";
    let w3 = b"*3\r\n$3\r\nset\r\n$1\r\na\r\n$1\r\n3\r\n";
    handle(&mut a, &mut node, w1);
    handle(&mut b, &mut node, read);
    handle(&mut b, &mut node, w2);
    let sent_so_far = node.registry.take_outbox(10);
    handle(&mut a, &mut node, w3);

    let mut expected = Vec::new();
    expected.extend_from_slice(b"*3\r\n$3\r\nSET\r\n$1\r\na\r\n$1\r\n1\r\n");
    expected.extend_from_slice(b"*5\r\n$3\r\nSET\r\n$1\r\nb\r\n$1\r\n2\r\n$2\r\nPX\r\n$2\r\n50\r\n");
    expected.extend_from_slice(b"*3\r\n$3\r\nSET\r\n$1\r\na\r\n$1\r\n3\r\n");

    let mut stream1 = sent_so_far;
    stream1.extend(node.registry.take_outbox(10));
    let stream2 = node.registry.take_outbox(11);
    assert_eq!(stream1, expected);
    assert_eq!(stream2, expected);

    let commands: Vec<_> = decode_all(&stream2).into_iter().map(parse_command).collect();
    assert_eq!(
        commands,
        vec![
            Ok(Command::SetKey(b"a".to_vec(), b"1".to_vec(), None)),
            Ok(Command::SetKey(b"b".to_vec(), b"2".to_vec(), Some(50))),
            Ok(Command::SetKey(b"a".to_vec(), b"3".to_vec(), None)),
        ]
    );
}

#[test]
fn removed_follower_gets_nothing_more() {
    let mut node = Node::new(RedisState::Master, b"id".to_vec(), Vec::new());
    let mut f = Connection::client(4);
    handle(&mut f, &mut node, b"*3\r\n$5\r\nPSYNC\r\n$1\r\n?\r\n$2\r\n-1\r\n");
    node.registry.remove(4);
    let mut c = Connection::client(1);
    handle(&mut c, &mut node, b"*3\r\n$3\r\nSET\r\n$1\r\nk\r\n$1\r\nv\r\n");
    assert_eq!(node.registry.len(), 0);
    assert_eq!(node.registry.take_outbox(4), Vec::<u8>::new());
}

#[test]
fn psync_answer_reads_back_on_the_follower() {
    let rdb = construct_rdb().unwrap();
    let mut bytes = psync_reply(&b"8371b4fb1155b71f4a04d3e1bc3e18c4a990aeeb".to_vec(), &rdb);
    bytes.extend_from_slice(b"*1\r\n$4\r\nPING\r\n");
    let mut p = RespParser::new();
    p.feed(&bytes);
    match p.next_value() {
        NextValue::Value(RespType::SimpleString(t), _) => {
            assert_eq!(t, b"FULLRESYNC 8371b4fb1155b71f4a04d3e1bc3e18c4a990aeeb 0".to_vec())
        }
        other => panic!("{:?}", other),
    }
    assert_eq!(p.process_rdb_file(), NextSnapshot::Payload(rdb));
    assert_eq!(
        p.next_value(),
        NextValue::Value(RespType::Array(vec![RespType::BulkString(Some(b"PING".to_vec()))]), 14)
    );
}
