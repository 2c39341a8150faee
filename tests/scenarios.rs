use redis_lite::decoder::{NextValue, RespParser};
use redis_lite::node::{Action, Connection, ConnectionKind, Node, RedisState};
use redis_lite::registry::Registry;
use redis_lite::snapshot::construct_rdb;

const REPLID: &[u8] = b"8371b4fb1155b71f4a04d3e1bc3e18c4a990aeeb";

fn leader() -> Node {
    Node::new(RedisState::Master, REPLID.to_vec(), construct_rdb().unwrap())
}

fn follower() -> Node {
    Node::new(RedisState::Replica, REPLID.to_vec(), Vec::new())
}

/// Feeds `bytes` to a decoder and handles every frame, returning the actions.
fn send(conn: &mut Connection, node: &mut Node, bytes: &[u8], now: u64) -> Vec<Action> {
    let mut d = RespParser::new();
    d.feed(bytes);
    let mut out = Vec::new();
    loop {
        match d.next_value() {
            NextValue::Value(v, n) => out.push(conn.handle_frame(node, v, n as u64, now)),
            NextValue::NeedMore => break,
            NextValue::Malformed => panic!("malformed"),
        }
    }
    out
}

fn reply(bytes: &[u8]) -> Action {
    Action::Reply(bytes.to_vec())
}

#[test]
fn ping_gets_pong() {
    let mut node = leader();
    let mut c = Connection::client(1);
    assert_eq!(send(&mut c, &mut node, b"*1\r\n$4\r\nPING\r\n", 0), vec![reply(b"+PONG\r\n")]);
}

#[test]
fn echo_returns_its_argument() {
    let mut node = leader();
    let mut c = Connection::client(1);
    assert_eq!(
        send(&mut c, &mut node, b"*2\r\n$4\r\nECHO\r\n$3\r\nhey\r\n", 0),
        vec![reply(b"$3\r\nhey\r\n")]
    );
}

#[test]
fn set_then_get_without_expiry() {
    let mut node = leader();
    let mut c = Connection::client(1);
    let set = b"*3\r\n$3\r\nSET\r\n$3\r\nfoo\r\n$3\r\nbar\r\n";
    let get = b"*2\r\n$3\r\nGET\r\n$3\r\nfoo\r\n";
    assert_eq!(send(&mut c, &mut node, set, 1_000), vec![reply(b"+OK\r\n")]);
    assert_eq!(send(&mut c, &mut node, get, 1_000), vec![reply(b"$3\r\nbar\r\n")]);
    assert_eq!(send(&mut c, &mut node, get, 1_100), vec![reply(b"$3\r\nbar\r\n")]);
}

#[test]
fn set_with_px_expires() {
    let mut node = leader();
    let mut c = Connection::client(1);
    let set = b"*5\r\n$3\r\nSET\r\n$3\r\nfoo\r\n$3\r\nbar\r\n$2\r\nPX\r\n$3\r\n100\r\n";
    assert_eq!(
        send(&mut c, &mut node, set, 1_000),
        vec![Action::Expiring(Some(b"+OK\r\n".to_vec()), b"foo".to_vec(), 1_100)]
    );
    let get = b"*2\r\n$3\r\nGET\r\n$3\r\nfoo\r\n";
    assert_eq!(send(&mut c, &mut node, get, 1_200), vec![reply(b"$-1\r\n")]);
}

#[test]
fn unknown_and_malformed_commands_get_errors() {
    let mut node = leader();
    let mut c = Connection::client(1);
    assert_eq!(
        send(&mut c, &mut node, b"*1\r\n$3\r\nFLY\r\n", 0),
        vec![reply(b"-ERR unknown command\r\n")]
    );
    assert_eq!(
        send(&mut c, &mut node, b"*1\r\n$3\r\nGET\r\n", 0),
        vec![reply(b"-ERR malformed command\r\n")]
    );
}

#[test]
fn info_on_leader_and_follower() {
    let mut node = leader();
    let mut c = Connection::client(1);
    assert_eq!(
        send(&mut c, &mut node, b"*1\r\n$4\r\nINFO\r\n", 0),
        vec![reply(b"-ERR malformed command\r\n")]
    );
    let info = b"*2\r\n$4\r\nINFO\r\n$11\r\nreplication\r\n";
    let text = b"role:master\nmaster_replid:8371b4fb1155b71f4a04d3e1bc3e18c4a990aeeb\nmaster_repl_offset:0\n";
    let mut expected = format!("${}\r\n", text.len()).into_bytes();
    expected.extend_from_slice(text);
    expected.extend_from_slice(b"\r\n");
    assert_eq!(send(&mut c, &mut node, info, 0), vec![Action::Reply(expected)]);

    let mut node = follower();
    let mut c = Connection::client(1);
    assert_eq!(send(&mut c, &mut node, info, 0), vec![reply(b"$10\r\nrole:slave\r\n")]);
}

#[test]
fn psync_promotes_and_queues_fullresync_and_snapshot() {
    let mut node = leader();
    let mut c = Connection::client(9);
    let psync = b"*3\r\n$5\r\nPSYNC\r\n$1\r\n?\r\n$2\r\n-1\r\n";
    assert_eq!(send(&mut c, &mut node, psync, 0), vec![Action::Promoted]);
    assert_eq!(c.kind, ConnectionKind::Follower);
    assert_eq!(node.registry.snapshot(), vec![9]);
    let queued = node.registry.take_outbox(9);
    let head = b"+FULLRESYNC 8371b4fb1155b71f4a04d3e1bc3e18c4a990aeeb 0\r\n";
    assert!(queued.starts_with(head));
    let rest = &queued[head.len()..];
    let snapshot = construct_rdb().unwrap();
    let mut frame = format!("${}\r\n", snapshot.len()).into_bytes();
    frame.extend_from_slice(&snapshot);
    assert_eq!(rest, &frame[..]);
}

#[test]
fn write_reaches_follower_and_wait_counts_it() {
    let mut node = leader();
    let mut f = Connection::client(2);
    send(&mut f, &mut node, b"*3\r\n$5\r\nPSYNC\r\n$1\r\n?\r\n$2\r\n-1\r\n", 0);
    node.registry.take_outbox(2);

    let mut c = Connection::client(1);
    assert_eq!(
        send(&mut c, &mut node, b"*3\r\n$3\r\nSET\r\n$1\r\nk\r\n$1\r\nv\r\n", 0),
        vec![reply(b"+OK\r\n")]
    );
    let set_frame = b"*3\r\n$3\r\nSET\r\n$1\r\nk\r\n$1\r\nv\r\n";
    assert_eq!(node.registry.take_outbox(2), set_frame.to_vec());
    assert_eq!(c.write_bytes_emitted, set_frame.len() as u64);
    assert_eq!(c.pending_writes_since_wait, 1);

    let wait = b"*3\r\n$4\r\nWAIT\r\n$1\r\n1\r\n$3\r\n500\r\n";
    assert_eq!(send(&mut c, &mut node, wait, 0), vec![Action::Wait(27, 500)]);
    assert_eq!(
        node.registry.take_outbox(2),
        b"*3\r\n$8\r\nREPLCONF\r\n$6\r\nGETACK\r\n$1\r\n*\r\n".to_vec()
    );
    assert_eq!(node.registry.caught_up(27), 0);
    assert!(!node.registry.wait_over());
    let ack = b"*3\r\n$8\r\nREPLCONF\r\n$3\r\nACK\r\n$2\r\n27\r\n";
    assert_eq!(send(&mut f, &mut node, ack, 0), vec![Action::Silent]);
    assert_eq!(node.registry.caught_up(27), 1);
    assert!(node.registry.wait_over());
    assert_eq!(c.finish_wait(&node.registry, 27), b":1\r\n".to_vec());
    assert_eq!(c.pending_writes_since_wait, 0);
}

#[test]
fn wait_without_writes_counts_followers() {
    let mut node = leader();
    let mut f = Connection::client(2);
    send(&mut f, &mut node, b"*3\r\n$5\r\nPSYNC\r\n$1\r\n?\r\n$2\r\n-1\r\n", 0);
    let mut c = Connection::client(1);
    let wait = b"*3\r\n$4\r\nWAIT\r\n$1\r\n0\r\n$2\r\n10\r\n";
    assert_eq!(send(&mut c, &mut node, wait, 0), vec![reply(b":1\r\n")]);
}

#[test]
fn wait_times_out_with_lagging_follower() {
    let mut node = leader();
    let mut f = Connection::client(2);
    send(&mut f, &mut node, b"*3\r\n$5\r\nPSYNC\r\n$1\r\n?\r\n$2\r\n-1\r\n", 0);
    let mut c = Connection::client(1);
    send(&mut c, &mut node, b"*3\r\n$3\r\nSET\r\n$1\r\nk\r\n$1\r\nv\r\n", 0);
    let wait = b"*3\r\n$4\r\nWAIT\r\n$1\r\n1\r\n$3\r\n500\r\n";
    assert_eq!(send(&mut c, &mut node, wait, 0), vec![Action::Wait(27, 500)]);
    assert!(!node.registry.wait_over());
    let ack = b"*3\r\n$8\r\nREPLCONF\r\n$3\r\nACK\r\n$1\r\n5\r\n";
    send(&mut f, &mut node, ack, 0);
    assert!(node.registry.wait_over());
    assert_eq!(c.finish_wait(&node.registry, 27), b":0\r\n".to_vec());
}

#[test]
fn follower_applies_leader_stream_silently_and_acks_offset() {
    let mut node = follower();
    let mut link = Connection::leader_link(0);
    let set = b"*3\r\n$3\r\nSET\r\n$1\r\nk\r\n$1\r\nv\r\n";
    let ping = b"*1\r\n$4\r\nPING\r\n";
    let getack = b"*3\r\n$8\r\nREPLCONF\r\n$6\r\nGETACK\r\n$1\r\n*\r\n";
    let mut stream = Vec::new();
    stream.extend_from_slice(set);
    stream.extend_from_slice(ping);
    stream.extend_from_slice(getack);
    let actions = send(&mut link, &mut node, &stream, 0);
    let offset = (set.len() + ping.len()).to_string();
    let mut ack = format!("*3\r\n$8\r\nREPLCONF\r\n$3\r\nACK\r\n${}\r\n", offset.len()).into_bytes();
    ack.extend_from_slice(offset.as_bytes());
    ack.extend_from_slice(b"\r\n");
    assert_eq!(actions, vec![Action::Silent, Action::Silent, Action::Reply(ack)]);
    assert_eq!(link.ingress_bytes, (set.len() + ping.len() + getack.len()) as u64);
    assert_eq!(node.store.get(&b"k".to_vec(), 0), Some(b"v".to_vec()));
}

#[test]
fn first_getack_reports_zero() {
    let mut node = follower();
    let mut link = Connection::leader_link(0);
    let getack = b"*3\r\n$8\r\nREPLCONF\r\n$6\r\nGETACK\r\n$1\r\n*\r\n";
    assert_eq!(
        send(&mut link, &mut node, getack, 0),
        vec![reply(b"*3\r\n$8\r\nREPLCONF\r\n$3\r\nACK\r\n$1\r\n0\r\n")]
    );
}

#[test]
fn role_errors() {
    let mut node = leader();
    let mut c = Connection::client(1);
    let getack = b"*3\r\n$8\r\nREPLCONF\r\n$6\r\nGETACK\r\n$1\r\n*\r\n";
    assert_eq!(send(&mut c, &mut node, getack, 0), vec![reply(b"-ERR wrong role\r\n")]);
    let mut node = follower();
    let mut c = Connection::client(1);
    let wait = b"*3\r\n$4\r\nWAIT\r\n$1\r\n0\r\n$2\r\n10\r\n";
    assert_eq!(send(&mut c, &mut node, wait, 0), vec![reply(b"-ERR wrong role\r\n")]);
    let other = b"*3\r\n$8\r\nREPLCONF\r\n$14\r\nlistening-port\r\n$4\r\n6380\r\n";
    assert_eq!(send(&mut c, &mut node, other, 0), vec![reply(b"+OK\r\n")]);
}

#[test]
fn registry_keeps_registration_order() {
    let mut r = Registry::new();
    assert!(r.add(5, Vec::new()));
    assert!(r.add(3, Vec::new()));
    assert!(!r.add(5, Vec::new()));
    assert!(r.add(8, Vec::new()));
    assert_eq!(r.snapshot(), vec![5, 3, 8]);
    r.remove(3);
    assert_eq!(r.snapshot(), vec![5, 8]);
    assert!(!r.contains(3));
    r.propagate(&b"ab".to_vec());
    r.propagate(&b"cd".to_vec());
    assert_eq!(r.take_outbox(8), b"abcd".to_vec());
    assert_eq!(r.take_outbox(8), Vec::<u8>::new());
    r.record_ack(5, 10);
    assert_eq!(r.caught_up(0), 0);
    assert!(r.wait_over());
    r.request_acks(&b"?".to_vec());
    assert!(!r.wait_over());
    r.record_ack(8, 1);
    assert!(!r.wait_over());
    r.record_ack(5, 10);
    assert!(r.wait_over());
    assert_eq!(r.caught_up(10), 1);
    assert_eq!(r.caught_up(1), 2);
    assert_eq!(r.caught_up(11), 0);
    r.request_acks(&b"?".to_vec());
    r.request_acks(&b"?".to_vec());
    r.record_ack(5, 50);
    assert_eq!(r.caught_up(0), 0);
    assert!(!r.wait_over());
    r.record_ack(5, 60);
    r.record_ack(8, 70);
    r.record_ack(8, 80);
    assert!(r.wait_over());
    assert_eq!(r.caught_up(61), 1);
    assert_eq!(r.caught_up(60), 2);
    assert_eq!(r.take_outbox(8), b"???".to_vec());
}

#[test]
fn each_wait_counts_only_answers_to_its_own_getack() {
    let mut node = leader();
    let mut f = Connection::client(2);
    send(&mut f, &mut node, b"*3\r\n$5\r\nPSYNC\r\n$1\r\n?\r\n$2\r\n-1\r\n", 0);
    node.registry.take_outbox(2);
    let mut follower_node = follower();
    let mut link = Connection::leader_link(0);
    let mut c = Connection::client(1);
    let set = b"*3\r\n$3\r\nSET\r\n$1\r\nk\r\n$1\r\nv\r\n";
    let wait = b"*3\r\n$4\r\nWAIT\r\n$1\r\n1\r\n$3\r\n500\r\n";
    let mut reported = Vec::new();
    for round in 1..=3u64 {
        assert_eq!(send(&mut c, &mut node, set, 0), vec![reply(b"+OK\r\n")]);
        let target = 27 * round;
        assert_eq!(send(&mut c, &mut node, wait, 0), vec![Action::Wait(target, 500)]);
        // The follower has not answered this WAIT's request yet: an earlier
        // answer, however large, does not count.
        assert!(!node.registry.wait_over());
        assert_eq!(node.registry.caught_up(target), 0);
        assert_eq!(node.registry.caught_up(0), 0);

        let bytes = node.registry.take_outbox(2);
        let actions = send(&mut link, &mut follower_node, &bytes, 0);
        assert_eq!(actions.len(), 2);
        assert_eq!(actions[0], Action::Silent);
        let ack = match &actions[1] {
            Action::Reply(b) => b.clone(),
            other => panic!("{:?}", other),
        };
        reported.push(ack.clone());
        assert_eq!(send(&mut f, &mut node, &ack, 0), vec![Action::Silent]);
        assert!(node.registry.wait_over());
        assert_eq!(c.finish_wait(&node.registry, target), b":1\r\n".to_vec());
    }
    assert_eq!(reported[0], b"*3\r\n$8\r\nREPLCONF\r\n$3\r\nACK\r\n$2\r\n27\r\n".to_vec());
    assert_eq!(reported[1], b"*3\r\n$8\r\nREPLCONF\r\n$3\r\nACK\r\n$2\r\n91\r\n".to_vec());
    assert_eq!(reported[2], b"*3\r\n$8\r\nREPLCONF\r\n$3\r\nACK\r\n$3\r\n155\r\n".to_vec());
}

#[test]
fn wait_that_gets_no_answer_counts_zero() {
    let mut node = leader();
    let mut f = Connection::client(2);
    send(&mut f, &mut node, b"*3\r\n$5\r\nPSYNC\r\n$1\r\n?\r\n$2\r\n-1\r\n", 0);
    let mut c = Connection::client(1);
    let set = b"*3\r\n$3\r\nSET\r\n$1\r\nk\r\n$1\r\nv\r\n";
    let wait = b"*3\r\n$4\r\nWAIT\r\n$1\r\n1\r\n$3\r\n500\r\n";
    send(&mut c, &mut node, set, 0);
    send(&mut c, &mut node, wait, 0);
    let ack = b"*3\r\n$8\r\nREPLCONF\r\n$3\r\nACK\r\n$4\r\n1000\r\n";
    send(&mut f, &mut node, ack, 0);
    assert_eq!(c.finish_wait(&node.registry, 27), b":1\r\n".to_vec());
    send(&mut c, &mut node, set, 0);
    assert_eq!(send(&mut c, &mut node, wait, 0), vec![Action::Wait(54, 500)]);
    assert_eq!(c.finish_wait(&node.registry, 54), b":0\r\n".to_vec());
}
