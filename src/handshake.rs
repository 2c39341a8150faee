//! The follower's side of the replication handshake: PING, REPLCONF
//! listening-port, REPLCONF capa psync2, PSYNC ? -1, then the FULLRESYNC
//! line and the snapshot. The caller sends what a step says and reads the
//! next reply (or the snapshot) with a `RespParser`.
use vstd::prelude::*;
use crate::bytes::{bytes_eq, copy_of};
use crate::commands::{serialize_command, serialized, Command, CommandView};
use crate::decimal::{nat_text, push_nat_text};
use crate::resp::{RespType, RespValue};

verus! {

#[derive(PartialEq, Eq, Structural, Debug, Clone, Copy)]
pub enum HandshakeState {
    Connecting,
    AwaitingPong,
    AwaitingPortOk,
    AwaitingCapaOk,
    AwaitingFullResync,
    AwaitingSnapshot,
    Streaming,
    Failed,
}

/// What the caller does next.
#[derive(Debug, PartialEq, Eq)]
pub enum HandshakeStep {
    /// Send these bytes, then read one reply.
    Send(Vec<u8>),
    /// Read the snapshot frame (with `RespParser::process_rdb_file`).
    ReadSnapshot,
    /// The handshake is complete: the connection now streams commands.
    Done,
    /// The leader answered out of turn: the handshake failed.
    Fail,
}

pub enum HandshakeStepView {
    Send(Seq<u8>),
    ReadSnapshot,
    Done,
    Fail,
}

impl View for HandshakeStep {
    type V = HandshakeStepView;

    open spec fn view(&self) -> HandshakeStepView {
        match self {
            HandshakeStep::Send(b) => HandshakeStepView::Send(b@),
            HandshakeStep::ReadSnapshot => HandshakeStepView::ReadSnapshot,
            HandshakeStep::Done => HandshakeStepView::Done,
            HandshakeStep::Fail => HandshakeStepView::Fail,
        }
    }
}

/// A follower's handshake with its leader; `port` is the follower's own
/// listening port.
#[derive(PartialEq, Eq, Structural, Debug, Clone, Copy)]
pub struct Handshake {
    pub state: HandshakeState,
    pub port: u16,
}

/// `listening-port`
pub open spec fn word_listening_port() -> Seq<u8> {
    seq![108u8, 105, 115, 116, 101, 110, 105, 110, 103, 45, 112, 111, 114, 116]
}

/// `capa`
pub open spec fn word_capa() -> Seq<u8> {
    seq![99u8, 97, 112, 97]
}

/// `psync2`
pub open spec fn word_psync2() -> Seq<u8> {
    seq![112u8, 115, 121, 110, 99, 50]
}

/// `FULLRESYNC`
pub open spec fn word_fullresync() -> Seq<u8> {
    seq![70u8, 85, 76, 76, 82, 69, 83, 89, 78, 67]
}

pub open spec fn ok_value() -> RespValue {
    RespValue::SimpleString(seq![79u8, 75])
}

pub open spec fn port_command(port: u16) -> CommandView {
    CommandView::ReplConf(word_listening_port(), Some(nat_text(port as nat)))
}

pub open spec fn capa_command() -> CommandView {
    CommandView::ReplConf(word_capa(), Some(word_psync2()))
}

/// `PSYNC ? -1`: a full resynchronisation from no known history.
pub open spec fn psync_command() -> CommandView {
    CommandView::Psync(seq![63u8], seq![45u8, 49])
}

pub open spec fn is_fullresync(reply: RespValue) -> bool {
    match reply {
        RespValue::SimpleString(t) => t.len() >= 10 && t.subrange(0, 10) == word_fullresync(),
        _ => false,
    }
}

/// The handshake's step on a reply from the leader.
pub open spec fn after_reply(h: Handshake, reply: RespValue) -> (Handshake, HandshakeStepView) {
    let fail = (Handshake { state: HandshakeState::Failed, ..h }, HandshakeStepView::Fail);
    match h.state {
        HandshakeState::AwaitingPong => (
            Handshake { state: HandshakeState::AwaitingPortOk, ..h },
            HandshakeStepView::Send(serialized(port_command(h.port))),
        ),
        HandshakeState::AwaitingPortOk => if reply == ok_value() {
            (
                Handshake { state: HandshakeState::AwaitingCapaOk, ..h },
                HandshakeStepView::Send(serialized(capa_command())),
            )
        } else {
            fail
        },
        HandshakeState::AwaitingCapaOk => if reply == ok_value() {
            (
                Handshake { state: HandshakeState::AwaitingFullResync, ..h },
                HandshakeStepView::Send(serialized(psync_command())),
            )
        } else {
            fail
        },
        HandshakeState::AwaitingFullResync => if is_fullresync(reply) {
            (Handshake { state: HandshakeState::AwaitingSnapshot, ..h }, HandshakeStepView::ReadSnapshot)
        } else {
            fail
        },
        _ => fail,
    }
}

impl Handshake {
    pub fn new(port: u16) -> (r: Handshake)
        ensures
            r == (Handshake { state: HandshakeState::Connecting, port }),
    {
        Handshake { state: HandshakeState::Connecting, port }
    }

    /// The first message, PING; a handshake that has already begun fails.
    pub fn start(&mut self) -> (r: HandshakeStep)
        ensures
            old(self).state == HandshakeState::Connecting ==> *final(self) == (Handshake {
                state: HandshakeState::AwaitingPong,
                ..*old(self)
            }) && r@ == HandshakeStepView::Send(serialized(CommandView::Ping)),
            old(self).state != HandshakeState::Connecting ==> *final(self) == (Handshake {
                state: HandshakeState::Failed,
                ..*old(self)
            }) && r@ == HandshakeStepView::Fail,
    {
        if self.state == HandshakeState::Connecting {
            self.state = HandshakeState::AwaitingPong;
            HandshakeStep::Send(serialize_command(&Command::Ping))
        } else {
            self.state = HandshakeState::Failed;
            HandshakeStep::Fail
        }
    }

    /// Takes the leader's reply to the last message sent.
    pub fn on_reply(&mut self, reply: &RespType) -> (r: HandshakeStep)
        ensures
            (*final(self), r@) == after_reply(*old(self), reply@),
    {
        let fail = HandshakeState::Failed;
        match self.state {
            HandshakeState::AwaitingPong => {
                self.state = HandshakeState::AwaitingPortOk;
                let mut text: Vec<u8> = Vec::new();
                push_nat_text(&mut text, self.port as u64);
                assert(text@ =~= nat_text(self.port as nat));
                let sub = copy_of(&[108u8, 105, 115, 116, 101, 110, 105, 110, 103, 45, 112, 111, 114, 116]);
                assert(sub@ =~= word_listening_port());
                HandshakeStep::Send(serialize_command(&Command::ReplConf(sub, Some(text))))
            },
            HandshakeState::AwaitingPortOk => {
                if is_ok(reply) {
                    self.state = HandshakeState::AwaitingCapaOk;
                    let sub = copy_of(&[99u8, 97, 112, 97]);
                    let arg = copy_of(&[112u8, 115, 121, 110, 99, 50]);
                    assert(sub@ =~= word_capa());
                    assert(arg@ =~= word_psync2());
                    HandshakeStep::Send(serialize_command(&Command::ReplConf(sub, Some(arg))))
                } else {
                    self.state = fail;
                    HandshakeStep::Fail
                }
            },
            HandshakeState::AwaitingCapaOk => {
                if is_ok(reply) {
                    self.state = HandshakeState::AwaitingFullResync;
                    let id = copy_of(&[63u8]);
                    let offset = copy_of(&[45u8, 49]);
                    assert(id@ =~= seq![63u8]);
                    assert(offset@ =~= seq![45u8, 49]);
                    HandshakeStep::Send(serialize_command(&Command::Psync(id, offset)))
                } else {
                    self.state = fail;
                    HandshakeStep::Fail
                }
            },
            HandshakeState::AwaitingFullResync => {
                if starts_fullresync(reply) {
                    self.state = HandshakeState::AwaitingSnapshot;
                    HandshakeStep::ReadSnapshot
                } else {
                    self.state = fail;
                    HandshakeStep::Fail
                }
            },
            _ => {
                self.state = fail;
                HandshakeStep::Fail
            },
        }
    }

    /// Takes the snapshot; the handshake is then complete. The snapshot's
    /// contents are not loaded: the store starts empty.
    pub fn on_snapshot(&mut self) -> (r: HandshakeStep)
        ensures
            old(self).state == HandshakeState::AwaitingSnapshot ==> *final(self) == (Handshake {
                state: HandshakeState::Streaming,
                ..*old(self)
            }) && r@ == HandshakeStepView::Done,
            old(self).state != HandshakeState::AwaitingSnapshot ==> *final(self) == (Handshake {
                state: HandshakeState::Failed,
                ..*old(self)
            }) && r@ == HandshakeStepView::Fail,
    {
        if self.state == HandshakeState::AwaitingSnapshot {
            self.state = HandshakeState::Streaming;
            HandshakeStep::Done
        } else {
            self.state = HandshakeState::Failed;
            HandshakeStep::Fail
        }
    }
}

fn is_ok(reply: &RespType) -> (r: bool)
    ensures
        r == (reply@ == ok_value()),
{
    match reply {
        RespType::SimpleString(t) => {
            let r = bytes_eq(t.as_slice(), &[79u8, 75]);
            assert(r ==> t@ =~= seq![79u8, 75]);
            r
        },
        _ => false,
    }
}

fn starts_fullresync(reply: &RespType) -> (r: bool)
    ensures
        r == is_fullresync(reply@),
{
    match reply {
        RespType::SimpleString(t) => {
            if t.len() < 10 {
                return false;
            }
            let mut i: usize = 0;
            let word: &[u8] = &[70u8, 85, 76, 76, 82, 69, 83, 89, 78, 67];
            assert(word@ == word_fullresync());
            while i < 10
                invariant
                    i <= 10 <= t@.len(),
                    *reply == RespType::SimpleString(*t),
                    word@ == word_fullresync(),
                    forall|j: int| 0 <= j < i ==> t@[j] == word@[j],
                decreases 10 - i,
            {
                if t[i] != word[i] {
                    assert(t@.subrange(0, 10)[i as int] != word_fullresync()[i as int]);
                    return false;
                }
                i = i + 1;
            }
            assert(t@.subrange(0, 10) =~= word_fullresync());
            true
        },
        _ => false,
    }
}

} // verus!
