//! A node and its connections. Each frame a connection receives goes
//! through `Connection::handle_frame`, which applies it to the node and says
//! what to send back; the caller performs the I/O. The whole step is stated
//! by the spec function `on_frame`.
use vstd::prelude::*;
use crate::bytes::{append, copy_of};
use crate::commands::{
    command_from_frame, matches_word, matches_word_exec, millis_value, parse_command,
    serialize_command, serialized, word_ack, word_getack, Command, CommandError, CommandView,
};
use crate::decimal::{nat_text, parse_numeral, push_nat_text};
use crate::registry::{
    count_caught_up, position_of, with_ack, with_frame, with_getack, FollowerView, Registry,
};
use crate::resp::{encode, serialize_resp_data, RespType, RespValue};
use crate::snapshot::{psync_answer, psync_reply};
use crate::store::{after_read, expiry_at, lookup, Slot, Store};

verus! {

/// The role of a node, fixed for the life of the process.
#[derive(PartialEq, Eq, Structural, Debug, Clone, Copy)]
pub enum RedisState {
    Master,
    Replica,
}

/// `master` or `slave`, as INFO names the roles.
pub open spec fn role_name_of(role: RedisState) -> Seq<u8> {
    match role {
        RedisState::Master => seq![109u8, 97, 115, 116, 101, 114],
        RedisState::Replica => seq![115u8, 108, 97, 118, 101],
    }
}

impl RedisState {
    /// The role's name on the wire.
    pub fn role_name(&self) -> (r: Vec<u8>)
        ensures
            r@ == role_name_of(*self),
    {
        match self {
            RedisState::Master => copy_of(&[109u8, 97, 115, 116, 101, 114]),
            RedisState::Replica => copy_of(&[115u8, 108, 97, 118, 101]),
        }
    }
}

/// What a connection is to this node.
#[derive(PartialEq, Eq, Structural, Debug, Clone, Copy)]
pub enum ConnectionKind {
    /// An ordinary client, or a peer that has not asked to follow yet.
    Client,
    /// On a leader: a follower that completed PSYNC. Its frames are only
    /// acknowledgements, and every byte sent to it goes through the registry.
    Follower,
    /// On a follower: the connection to its leader.
    LeaderLink,
}

/// A connection's state and its byte counters.
#[derive(PartialEq, Eq, Structural, Debug, Clone, Copy)]
pub struct Connection {
    pub id: u64,
    pub kind: ConnectionKind,
    /// Bytes framed from the peer (counted on a follower node).
    pub ingress_bytes: u64,
    /// Bytes of write commands this connection had the leader send to followers.
    pub write_bytes_emitted: u64,
    /// Write commands since the last WAIT on this connection.
    pub pending_writes_since_wait: u64,
}

/// What the caller does after a frame.
#[derive(Debug, PartialEq, Eq)]
pub enum Action {
    /// Send these bytes to the peer.
    Reply(Vec<u8>),
    /// Send nothing.
    Silent,
    /// A write that expires: send the reply if there is one, and purge the
    /// key (with `Store::purge`) once the expiry comes.
    Expiring(Option<Vec<u8>>, Vec<u8>, u64),
    /// The connection became a registered follower: from now on, send it
    /// what the registry queues for it.
    Promoted,
    /// A WAIT for the target offset: once `Registry::wait_over` holds, or
    /// the timeout in milliseconds has passed, call `finish_wait`.
    Wait(u64, u64),
}

pub enum ActionView {
    Reply(Seq<u8>),
    Silent,
    Expiring(Option<Seq<u8>>, Seq<u8>, u64),
    Promoted,
    Wait(u64, u64),
}

impl View for Action {
    type V = ActionView;

    open spec fn view(&self) -> ActionView {
        match self {
            Action::Reply(b) => ActionView::Reply(b@),
            Action::Silent => ActionView::Silent,
            Action::Expiring(None, k, t) => ActionView::Expiring(None, k@, *t),
            Action::Expiring(Some(b), k, t) => ActionView::Expiring(Some(b@), k@, *t),
            Action::Promoted => ActionView::Promoted,
            Action::Wait(target, timeout) => ActionView::Wait(*target, *timeout),
        }
    }
}

/// A node: its role, replication id, the snapshot it ships, its store and
/// its registry of followers.
pub struct Node {
    pub role: RedisState,
    pub replid: Vec<u8>,
    pub snapshot: Vec<u8>,
    pub store: Store,
    pub registry: Registry,
}

pub struct NodeView {
    pub role: RedisState,
    pub replid: Seq<u8>,
    pub snapshot: Seq<u8>,
    pub store: Map<Seq<u8>, Slot>,
    pub registry: Seq<FollowerView>,
}

impl View for Node {
    type V = NodeView;

    open spec fn view(&self) -> NodeView {
        NodeView {
            role: self.role,
            replid: self.replid@,
            snapshot: self.snapshot@,
            store: self.store@,
            registry: self.registry@,
        }
    }
}

impl Node {
    pub open spec fn wf(&self) -> bool {
        self.store.wf() && self.registry.wf()
    }

    /// A node with an empty store and no followers.
    pub fn new(role: RedisState, replid: Vec<u8>, snapshot: Vec<u8>) -> (r: Node)
        ensures
            r.wf(),
            r@ == (NodeView {
                role,
                replid: replid@,
                snapshot: snapshot@,
                store: Map::empty(),
                registry: Seq::empty(),
            }),
    {
        Node { role, replid, snapshot, store: Store::new(), registry: Registry::new() }
    }
}

/// `PONG`
pub open spec fn pong_reply() -> Seq<u8> {
    encode(RespValue::SimpleString(seq![80u8, 79, 78, 71]))
}

/// `OK`
pub open spec fn ok_reply() -> Seq<u8> {
    encode(RespValue::SimpleString(seq![79u8, 75]))
}

/// `ERR unknown command` or `ERR malformed command`.
pub open spec fn error_text(e: CommandError) -> Seq<u8> {
    match e {
        CommandError::UnsupportedCommand => seq![
            69u8, 82, 82, 32, 117, 110, 107, 110, 111, 119, 110, 32, 99, 111, 109, 109, 97, 110, 100,
        ],
        CommandError::MalformedCommand => seq![
            69u8, 82, 82, 32, 109, 97, 108, 102, 111, 114, 109, 101, 100, 32, 99, 111, 109, 109, 97,
            110, 100,
        ],
    }
}

/// `ERR wrong role`, for a command that this node's role does not take.
pub open spec fn role_error() -> Seq<u8> {
    encode(RespValue::Error(seq![69u8, 82, 82, 32, 119, 114, 111, 110, 103, 32, 114, 111, 108, 101]))
}

/// INFO's text: `role:<name>`, and on a leader also `master_replid:<id>`
/// and `master_repl_offset:0`, one per line.
pub open spec fn info_text(role: RedisState, replid: Seq<u8>) -> Seq<u8> {
    let head = seq![114u8, 111, 108, 101, 58] + role_name_of(role);
    match role {
        RedisState::Master => head + seq![
            10u8, 109, 97, 115, 116, 101, 114, 95, 114, 101, 112, 108, 105, 100, 58,
        ] + replid + seq![
            10u8, 109, 97, 115, 116, 101, 114, 95, 114, 101, 112, 108, 95, 111, 102, 102, 115, 101,
            116, 58, 48, 10,
        ],
        RedisState::Replica => head,
    }
}

/// `REPLCONF GETACK *`, which a leader sends to ask for an offset.
pub open spec fn getack_command() -> CommandView {
    CommandView::ReplConf(word_getack(), Some(seq![42u8]))
}

/// `REPLCONF ACK <offset>`, a follower's answer.
pub open spec fn ack_command(offset: nat) -> CommandView {
    CommandView::ReplConf(word_ack(), Some(nat_text(offset)))
}

/// The offset that a `REPLCONF ACK <offset>` carries.
pub open spec fn ack_offset_of(c: CommandView) -> Option<u64> {
    match c {
        CommandView::ReplConf(a, Some(o)) => if matches_word(a, word_ack()) {
            millis_value(o)
        } else {
            None
        },
        _ => None,
    }
}

/// A count as a RESP integer; a count beyond `i64` is written as `i64::MAX`.
pub open spec fn count_text(n: nat) -> Seq<u8> {
    encode(RespValue::Integer(if n <= i64::MAX { n as int } else { i64::MAX as int }))
}

fn count_reply(n: u64) -> (r: Vec<u8>)
    ensures
        r@ == count_text(n as nat),
{
    let v: i64 = if n <= 9223372036854775807u64 {
        n as i64
    } else {
        i64::MAX
    };
    serialize_resp_data(RespType::Integer(v))
}

pub open spec fn sat_add(a: u64, b: int) -> u64 {
    if a + b <= u64::MAX {
        (a + b) as u64
    } else {
        u64::MAX
    }
}

/// Whether replies on this connection are withheld: a follower applies what
/// its leader sends without answering, except a request for its offset.
pub open spec fn is_silent(role: RedisState, conn: Connection) -> bool {
    role == RedisState::Replica && conn.kind == ConnectionKind::LeaderLink
}

pub open spec fn reply_unless(silent: bool, bytes: Seq<u8>) -> ActionView {
    if silent {
        ActionView::Silent
    } else {
        ActionView::Reply(bytes)
    }
}

/// SET: store the value, and on a leader queue the command for every
/// follower and count it on the connection.
pub open spec fn set_step(
    conn: Connection,
    n: NodeView,
    k: Seq<u8>,
    v: Seq<u8>,
    px: Option<u64>,
    now: u64,
) -> (Connection, NodeView, ActionView) {
    let silent = is_silent(n.role, conn);
    let c = CommandView::SetKey(k, v, px);
    let store = n.store.insert(k, (v, expiry_at(now, px)));
    let leader = n.role == RedisState::Master;
    let registry = if leader {
        with_frame(n.registry, serialized(c))
    } else {
        n.registry
    };
    let conn2 = if leader {
        Connection {
            write_bytes_emitted: sat_add(conn.write_bytes_emitted, serialized(c).len() as int),
            pending_writes_since_wait: sat_add(conn.pending_writes_since_wait, 1),
            ..conn
        }
    } else {
        conn
    };
    let action = match expiry_at(now, px) {
        Some(t) => ActionView::Expiring(
            if silent {
                None
            } else {
                Some(ok_reply())
            },
            k,
            t,
        ),
        None => reply_unless(silent, ok_reply()),
    };
    (conn2, NodeView { store, registry, ..n }, action)
}

/// GET: the value, or the null bulk string; a read that finds the key
/// expired removes it.
pub open spec fn get_step(n: NodeView, k: Seq<u8>, now: u64, silent: bool) -> (NodeView, ActionView) {
    (
        NodeView { store: after_read(n.store, k, now), ..n },
        reply_unless(silent, encode(RespValue::BulkString(lookup(n.store, k, now)))),
    )
}

/// REPLCONF: a follower answers GETACK with the bytes it had processed
/// before this frame; a leader refuses GETACK; anything else is OK.
pub open spec fn replconf_step(conn: Connection, n: NodeView, a: Seq<u8>, frame_len: u64) -> ActionView {
    if matches_word(a, word_getack()) {
        if n.role == RedisState::Replica {
            ActionView::Reply(serialized(ack_command((conn.ingress_bytes - frame_len) as nat)))
        } else {
            ActionView::Reply(role_error())
        }
    } else {
        reply_unless(is_silent(n.role, conn), ok_reply())
    }
}

/// PSYNC: a leader registers the connection as a follower, with the
/// FULLRESYNC line and the snapshot first in its queue.
pub open spec fn psync_step(conn: Connection, n: NodeView) -> (Connection, NodeView, ActionView) {
    if n.role == RedisState::Master && conn.kind == ConnectionKind::Client && position_of(
        n.registry,
        conn.id,
    ) is None {
        (
            Connection { kind: ConnectionKind::Follower, ..conn },
            NodeView {
                registry: n.registry.push(
                    FollowerView {
                        id: conn.id,
                        outbox: psync_answer(n.replid, n.snapshot),
                        requested: 0,
                        received: 0,
                        answer: None,
                    },
                ),
                ..n
            },
            ActionView::Promoted,
        )
    } else {
        (conn, n, reply_unless(is_silent(n.role, conn), role_error()))
    }
}

/// WAIT: with no write since the last WAIT, the number of followers at
/// once; otherwise ask every follower for its offset and wait for the
/// connection's emitted bytes, up to the timeout (a negative one is zero).
pub open spec fn wait_step(conn: Connection, n: NodeView, timeout: i64) -> (Connection, NodeView, ActionView) {
    if n.role == RedisState::Replica {
        (conn, n, reply_unless(is_silent(n.role, conn), role_error()))
    } else if conn.pending_writes_since_wait == 0 {
        (conn, n, ActionView::Reply(count_text(n.registry.len())))
    } else {
        (
            conn,
            NodeView { registry: with_getack(n.registry, serialized(getack_command())), ..n },
            ActionView::Wait(
                conn.write_bytes_emitted,
                if timeout < 0 {
                    0
                } else {
                    timeout as u64
                },
            ),
        )
    }
}

/// One command on a connection of a node: the connection and node after it,
/// and what to send.
pub open spec fn on_command(
    conn: Connection,
    n: NodeView,
    c: CommandView,
    frame_len: u64,
    now: u64,
) -> (Connection, NodeView, ActionView) {
    let silent = is_silent(n.role, conn);
    match c {
        CommandView::Ping => (conn, n, reply_unless(silent, pong_reply())),
        CommandView::Echo(m) => (conn, n, reply_unless(silent, encode(RespValue::BulkString(Some(m))))),
        CommandView::SetKey(k, v, px) => set_step(conn, n, k, v, px, now),
        CommandView::Get(k) => (conn, get_step(n, k, now, silent).0, get_step(n, k, now, silent).1),
        CommandView::Info(_) => (
            conn,
            n,
            reply_unless(silent, encode(RespValue::BulkString(Some(info_text(n.role, n.replid))))),
        ),
        CommandView::ReplConf(a, _) => (conn, n, replconf_step(conn, n, a, frame_len)),
        CommandView::Psync(_, _) => psync_step(conn, n),
        CommandView::Wait(_, timeout) => wait_step(conn, n, timeout),
    }
}

/// One frame on a connection of a node. On a follower node the frame's
/// length is counted first. A registered follower's frames only record
/// its acknowledgements.
pub open spec fn on_frame(
    conn: Connection,
    n: NodeView,
    frame: RespValue,
    frame_len: u64,
    now: u64,
) -> (Connection, NodeView, ActionView) {
    let counted = if n.role == RedisState::Replica {
        Connection { ingress_bytes: sat_add(conn.ingress_bytes, frame_len as int), ..conn }
    } else {
        conn
    };
    if conn.kind == ConnectionKind::Follower {
        let registry = match command_from_frame(frame) {
            Ok(c) => match ack_offset_of(c) {
                Some(o) => with_ack(n.registry, conn.id, o),
                None => n.registry,
            },
            Err(_) => n.registry,
        };
        (counted, NodeView { registry, ..n }, ActionView::Silent)
    } else {
        match command_from_frame(frame) {
            Ok(c) => on_command(counted, n, c, frame_len, now),
            Err(e) => (
                counted,
                n,
                reply_unless(is_silent(n.role, counted), encode(RespValue::Error(error_text(e)))),
            ),
        }
    }
}

fn simple_reply(text: &[u8]) -> (r: Vec<u8>)
    ensures
        r@ == encode(RespValue::SimpleString(text@)),
{
    serialize_resp_data(RespType::SimpleString(copy_of(text)))
}

fn error_reply(text: &[u8]) -> (r: Vec<u8>)
    ensures
        r@ == encode(RespValue::Error(text@)),
{
    serialize_resp_data(RespType::Error(copy_of(text)))
}

fn command_error_reply(e: CommandError) -> (r: Vec<u8>)
    ensures
        r@ == encode(RespValue::Error(error_text(e))),
{
    match e {
        CommandError::UnsupportedCommand => error_reply(
            &[69u8, 82, 82, 32, 117, 110, 107, 110, 111, 119, 110, 32, 99, 111, 109, 109, 97, 110, 100],
        ),
        CommandError::MalformedCommand => error_reply(
            &[
                69u8, 82, 82, 32, 109, 97, 108, 102, 111, 114, 109, 101, 100, 32, 99, 111, 109, 109,
                97, 110, 100,
            ],
        ),
    }
}

fn role_error_reply() -> (r: Vec<u8>)
    ensures
        r@ == role_error(),
{
    error_reply(&[69u8, 82, 82, 32, 119, 114, 111, 110, 103, 32, 114, 111, 108, 101])
}

fn reply_unless_exec(silent: bool, bytes: Vec<u8>) -> (r: Action)
    ensures
        r@ == reply_unless(silent, bytes@),
{
    if silent {
        Action::Silent
    } else {
        Action::Reply(bytes)
    }
}

fn info_reply(role: RedisState, replid: &Vec<u8>) -> (r: Vec<u8>)
    ensures
        r@ == encode(RespValue::BulkString(Some(info_text(role, replid@)))),
{
    let mut text: Vec<u8> = Vec::new();
    append(&mut text, &[114u8, 111, 108, 101, 58]);
    let name = role.role_name();
    append(&mut text, name.as_slice());
    match role {
        RedisState::Master => {
            append(&mut text, &[10u8, 109, 97, 115, 116, 101, 114, 95, 114, 101, 112, 108, 105, 100, 58]);
            append(&mut text, replid.as_slice());
            append(
                &mut text,
                &[
                    10u8, 109, 97, 115, 116, 101, 114, 95, 114, 101, 112, 108, 95, 111, 102, 102, 115,
                    101, 116, 58, 48, 10,
                ],
            );
        },
        RedisState::Replica => {},
    }
    assert(text@ =~= info_text(role, replid@));
    serialize_resp_data(RespType::BulkString(Some(text)))
}

/// The offset that a `REPLCONF ACK <offset>` carries.
pub fn ack_offset(c: &Command) -> (r: Option<u64>)
    ensures
        r == ack_offset_of(c@),
{
    match c {
        Command::ReplConf(a, Some(o)) => {
            if matches_word_exec(a.as_slice(), &[65u8, 67, 75]) {
                assert(o@.subrange(0, o@.len() as int) =~= o@);
                parse_numeral(o.as_slice(), 0, o.len())
            } else {
                None
            }
        },
        _ => None,
    }
}

/// The bytes of `REPLCONF ACK <offset>`.
pub fn ack_frame(offset: u64) -> (r: Vec<u8>)
    ensures
        r@ == serialized(ack_command(offset as nat)),
{
    let mut text: Vec<u8> = Vec::new();
    push_nat_text(&mut text, offset);
    assert(text@ =~= nat_text(offset as nat));
    serialize_command(&Command::ReplConf(copy_of(&[65u8, 67, 75]), Some(text)))
}

/// The bytes of `REPLCONF GETACK *`.
pub fn getack_frame() -> (r: Vec<u8>)
    ensures
        r@ == serialized(getack_command()),
{
    let sub = copy_of(&[71u8, 69, 84, 65, 67, 75]);
    let star = copy_of(&[42u8]);
    assert(sub@ =~= word_getack());
    assert(star@ =~= seq![42u8]);
    serialize_command(&Command::ReplConf(sub, Some(star)))
}

/// PING: `PONG`.
pub fn handle_ping(silent: bool) -> (r: Action)
    ensures
        r@ == reply_unless(silent, pong_reply()),
{
    reply_unless_exec(silent, simple_reply(&[80u8, 79, 78, 71]))
}

/// ECHO: the message, as a bulk string.
pub fn handle_echo(message: Vec<u8>, silent: bool) -> (r: Action)
    ensures
        r@ == reply_unless(silent, encode(RespValue::BulkString(Some(message@)))),
{
    reply_unless_exec(silent, serialize_resp_data(RespType::BulkString(Some(message))))
}

/// SET, as `set_step` states it.
pub fn handle_set(
    conn: &mut Connection,
    node: &mut Node,
    key: Vec<u8>,
    value: Vec<u8>,
    px: Option<u64>,
    now: u64,
) -> (r: Action)
    requires
        old(node).wf(),
    ensures
        final(node).wf(),
        (*final(conn), final(node)@, r@) == set_step(*old(conn), old(node)@, key@, value@, px, now),
{
    let silent = node.role == RedisState::Replica && conn.kind == ConnectionKind::LeaderLink;
    if node.role == RedisState::Master {
        let frame = serialize_command(
            &Command::SetKey(copy_of(key.as_slice()), copy_of(value.as_slice()), px),
        );
        node.registry.propagate(&frame);
        conn.write_bytes_emitted = conn.write_bytes_emitted.saturating_add(frame.len() as u64);
        conn.pending_writes_since_wait = conn.pending_writes_since_wait.saturating_add(1);
    }
    let k = copy_of(key.as_slice());
    node.store.set_at(key, value, px, now);
    let reply = if silent {
        None
    } else {
        Some(simple_reply(&[79u8, 75]))
    };
    match px {
        Some(ms) => Action::Expiring(reply, k, now.saturating_add(ms)),
        None => match reply {
            Some(b) => Action::Reply(b),
            None => Action::Silent,
        },
    }
}

/// GET, as `get_step` states it.
pub fn handle_get(node: &mut Node, key: Vec<u8>, now: u64, silent: bool) -> (r: Action)
    requires
        old(node).wf(),
    ensures
        final(node).wf(),
        (final(node)@, r@) == get_step(old(node)@, key@, now, silent),
{
    let found = node.store.get(&key, now);
    reply_unless_exec(silent, serialize_resp_data(RespType::BulkString(found)))
}

/// INFO: the node's role, and on a leader its replication id and offset.
pub fn handle_info(node: &Node, silent: bool) -> (r: Action)
    ensures
        r@ == reply_unless(silent, encode(RespValue::BulkString(Some(info_text(node.role, node.replid@))))),
{
    reply_unless_exec(silent, info_reply(node.role, &node.replid))
}

/// REPLCONF other than GETACK: `OK`.
pub fn handle_replconf(silent: bool) -> (r: Action)
    ensures
        r@ == reply_unless(silent, ok_reply()),
{
    reply_unless_exec(silent, simple_reply(&[79u8, 75]))
}

/// REPLCONF GETACK, as `replconf_step` states it: on a follower, the bytes
/// processed before this frame of `frame_len` bytes.
pub fn handle_replconf_getack(conn: &Connection, node: &Node, frame_len: u64) -> (r: Action)
    requires
        node.role == RedisState::Replica ==> conn.ingress_bytes >= frame_len,
    ensures
        r@ == replconf_step(*conn, node@, word_getack(), frame_len),
{
    if node.role == RedisState::Replica {
        Action::Reply(ack_frame(conn.ingress_bytes - frame_len))
    } else {
        Action::Reply(role_error_reply())
    }
}

/// PSYNC, as `psync_step` states it.
pub fn handle_psync(conn: &mut Connection, node: &mut Node) -> (r: Action)
    requires
        old(node).wf(),
    ensures
        final(node).wf(),
        (*final(conn), final(node)@, r@) == psync_step(*old(conn), old(node)@),
{
    if node.role == RedisState::Master && conn.kind == ConnectionKind::Client && !node.registry.contains(
        conn.id,
    ) {
        let answer = psync_reply(&node.replid, &node.snapshot);
        node.registry.add(conn.id, answer);
        conn.kind = ConnectionKind::Follower;
        Action::Promoted
    } else {
        let silent = node.role == RedisState::Replica && conn.kind == ConnectionKind::LeaderLink;
        reply_unless_exec(silent, role_error_reply())
    }
}

/// WAIT, as `wait_step` states it; `Connection::finish_wait` gives the reply
/// once the waiting is over.
pub fn handle_wait(conn: &mut Connection, node: &mut Node, timeout: i64) -> (r: Action)
    requires
        old(node).wf(),
    ensures
        final(node).wf(),
        (*final(conn), final(node)@, r@) == wait_step(*old(conn), old(node)@, timeout),
{
    if node.role == RedisState::Replica {
        let silent = conn.kind == ConnectionKind::LeaderLink;
        reply_unless_exec(silent, role_error_reply())
    } else if conn.pending_writes_since_wait == 0 {
        Action::Reply(count_reply(node.registry.len() as u64))
    } else {
        node.registry.request_acks(&getack_frame());
        let t: u64 = if timeout < 0 {
            0
        } else {
            timeout as u64
        };
        Action::Wait(conn.write_bytes_emitted, t)
    }
}

impl Connection {
    /// A connection accepted from a peer.
    pub fn client(id: u64) -> (r: Connection)
        ensures
            r == (Connection {
                id,
                kind: ConnectionKind::Client,
                ingress_bytes: 0,
                write_bytes_emitted: 0,
                pending_writes_since_wait: 0,
            }),
    {
        Connection {
            id,
            kind: ConnectionKind::Client,
            ingress_bytes: 0,
            write_bytes_emitted: 0,
            pending_writes_since_wait: 0,
        }
    }

    /// A follower's connection to its leader, once the handshake is done:
    /// its offset starts at zero.
    pub fn leader_link(id: u64) -> (r: Connection)
        ensures
            r == (Connection {
                id,
                kind: ConnectionKind::LeaderLink,
                ingress_bytes: 0,
                write_bytes_emitted: 0,
                pending_writes_since_wait: 0,
            }),
    {
        Connection {
            id,
            kind: ConnectionKind::LeaderLink,
            ingress_bytes: 0,
            write_bytes_emitted: 0,
            pending_writes_since_wait: 0,
        }
    }

    /// Applies one frame, of `frame_len` bytes, received at `now`.
    pub fn handle_frame(&mut self, node: &mut Node, frame: RespType, frame_len: u64, now: u64) -> (r:
        Action)
        requires
            old(node).wf(),
        ensures
            final(node).wf(),
            (*final(self), final(node)@, r@) == on_frame(
                *old(self),
                old(node)@,
                frame@,
                frame_len,
                now,
            ),
    {
        if node.role == RedisState::Replica {
            self.ingress_bytes = self.ingress_bytes.saturating_add(frame_len);
        }
        let parsed = parse_command(frame);
        if self.kind == ConnectionKind::Follower {
            if let Ok(c) = &parsed {
                if let Some(offset) = ack_offset(c) {
                    node.registry.record_ack(self.id, offset);
                }
            }
            return Action::Silent;
        }
        let silent = node.role == RedisState::Replica && self.kind == ConnectionKind::LeaderLink;
        match parsed {
            Err(e) => reply_unless_exec(silent, command_error_reply(e)),
            Ok(c) => self.handle_command(node, c, frame_len, now),
        }
    }

    fn handle_command(&mut self, node: &mut Node, c: Command, frame_len: u64, now: u64) -> (r: Action)
        requires
            old(node).wf(),
            old(self).kind != ConnectionKind::Follower,
            old(node).role == RedisState::Replica ==> old(self).ingress_bytes >= frame_len,
        ensures
            final(node).wf(),
            (*final(self), final(node)@, r@) == on_command(
                *old(self),
                old(node)@,
                c@,
                frame_len,
                now,
            ),
    {
        let silent = node.role == RedisState::Replica && self.kind == ConnectionKind::LeaderLink;
        match c {
            Command::Ping => handle_ping(silent),
            Command::Echo(m) => handle_echo(m, silent),
            Command::SetKey(k, v, px) => handle_set(self, node, k, v, px, now),
            Command::Get(k) => handle_get(node, k, now, silent),
            Command::Info(_) => handle_info(node, silent),
            Command::ReplConf(a, _) => {
                if matches_word_exec(a.as_slice(), &[71u8, 69, 84, 65, 67, 75]) {
                    handle_replconf_getack(self, node, frame_len)
                } else {
                    handle_replconf(silent)
                }
            },
            Command::Psync(_, _) => handle_psync(self, node),
            Command::Wait(_, timeout) => handle_wait(self, node, timeout),
        }
    }

    /// Ends a WAIT: the reply is the number of followers whose answer to
    /// the latest request for their offset reaches `target` bytes, and the
    /// count of writes since the last WAIT starts again at zero.
    pub fn finish_wait(&mut self, registry: &Registry, target: u64) -> (r: Vec<u8>)
        ensures
            r@ == count_text(count_caught_up(registry@, target)),
            *final(self) == (Connection { pending_writes_since_wait: 0, ..*old(self) }),
    {
        let n = registry.caught_up(target);
        self.pending_writes_since_wait = 0;
        count_reply(n)
    }
}

} // verus!
