//! What followers receive from a leader.
use vstd::prelude::*;
use crate::commands::{
    command_fits, command_frame, command_from_frame, lemma_command_round_trip, serialized,
    CommandError, CommandView,
};
use crate::resp::{encode_items, lemma_items_wf, RespValue};
use crate::decoder::{parse, Parsed};
use crate::round_trip::{lemma_round_trip, lemma_stream_in_order, parse_stream};
use crate::node::{on_command, Connection, NodeView, RedisState};
use crate::registry::FollowerView;

verus! {

/// A command that a connection hands to a node: the connection, the
/// command, the length of its frame, and the time.
pub type Step = (Connection, CommandView, u64, u64);

/// The node after it applies each step in order.
pub open spec fn apply_steps(n: NodeView, steps: Seq<Step>) -> NodeView
    decreases steps.len(),
{
    if steps.len() == 0 {
        n
    } else {
        let (conn, c, frame_len, now) = steps[0];
        apply_steps(on_command(conn, n, c, frame_len, now).1, steps.drop_first())
    }
}

/// The bytes of the writes among the steps, one after another.
pub open spec fn writes_bytes(steps: Seq<Step>) -> Seq<u8>
    decreases steps.len(),
{
    if steps.len() == 0 {
        Seq::empty()
    } else {
        (if steps[0].1.is_write() {
            serialized(steps[0].1)
        } else {
            Seq::empty()
        }) + writes_bytes(steps.drop_first())
    }
}

/// A command that leaves the set of followers and their queues alone
/// unless it is a write: anything but PSYNC and WAIT.
pub open spec fn keeps_followers(c: CommandView) -> bool {
    !(c is Psync) && !(c is Wait)
}

/// Every follower registered on a leader finds, queued after what it
/// already had, the bytes of each write command the leader applies,
/// exactly as serialized and in the order applied; no follower is added,
/// dropped or moved.
pub proof fn lemma_writes_reach_followers_in_order(n: NodeView, steps: Seq<Step>)
    requires
        n.role == RedisState::Master,
        forall|i: int| 0 <= i < steps.len() ==> keeps_followers(#[trigger] steps[i].1),
    ensures
        apply_steps(n, steps).role == RedisState::Master,
        apply_steps(n, steps).registry.len() == n.registry.len(),
        forall|i: int|
            0 <= i < n.registry.len() ==> #[trigger] apply_steps(n, steps).registry[i] == (
            FollowerView { outbox: n.registry[i].outbox + writes_bytes(steps), ..n.registry[i] }),
    decreases steps.len(),
{
    if steps.len() == 0 {
        assert forall|i: int| 0 <= i < n.registry.len() implies #[trigger] apply_steps(
            n,
            steps,
        ).registry[i] == (FollowerView {
            outbox: n.registry[i].outbox + writes_bytes(steps),
            ..n.registry[i]
        }) by {
            assert(n.registry[i].outbox + Seq::<u8>::empty() =~= n.registry[i].outbox);
        }
    } else {
        let (conn, c, frame_len, now) = steps[0];
        let n2 = on_command(conn, n, c, frame_len, now).1;
        let rest = steps.drop_first();
        assert(keeps_followers(steps[0].1));
        let head = if c.is_write() {
            serialized(c)
        } else {
            Seq::<u8>::empty()
        };
        assert(n2.role == RedisState::Master);
        assert(n2.registry.len() == n.registry.len());
        assert(forall|i: int|
            0 <= i < n.registry.len() ==> #[trigger] n2.registry[i] == (FollowerView {
                outbox: n.registry[i].outbox + head,
                ..n.registry[i]
            })) by {
            if !c.is_write() {
                assert forall|i: int| 0 <= i < n.registry.len() implies #[trigger] n2.registry[i]
                    == (FollowerView { outbox: n.registry[i].outbox + head, ..n.registry[i] }) by {
                    assert(n.registry[i].outbox + head =~= n.registry[i].outbox);
                }
            }
        }
        assert forall|i: int| 0 <= i < rest.len() implies keeps_followers(#[trigger] rest[i].1) by {
            assert(rest[i] == steps[i + 1]);
        }
        lemma_writes_reach_followers_in_order(n2, rest);
        assert forall|i: int| 0 <= i < n.registry.len() implies #[trigger] apply_steps(
            n,
            steps,
        ).registry[i] == (FollowerView {
            outbox: n.registry[i].outbox + writes_bytes(steps),
            ..n.registry[i]
        }) by {
            assert(n2.registry[i] == FollowerView { outbox: n.registry[i].outbox + head, ..n.registry[i] });
            assert(n.registry[i].outbox + head + writes_bytes(rest) =~= n.registry[i].outbox
                + writes_bytes(steps));
        }
    }
}

/// The write commands among the steps, in order.
pub open spec fn writes_of(steps: Seq<Step>) -> Seq<CommandView>
    decreases steps.len(),
{
    if steps.len() == 0 {
        Seq::empty()
    } else {
        (if steps[0].1.is_write() {
            seq![steps[0].1]
        } else {
            Seq::empty()
        }) + writes_of(steps.drop_first())
    }
}

pub open spec fn frames_of(cs: Seq<CommandView>) -> Seq<RespValue> {
    cs.map_values(|c: CommandView| command_frame(c))
}

proof fn lemma_writes_bytes_frames(steps: Seq<Step>)
    ensures
        writes_bytes(steps) == encode_items(frames_of(writes_of(steps))),
    decreases steps.len(),
{
    if steps.len() == 0 {
        assert(frames_of(writes_of(steps)) =~= Seq::<RespValue>::empty());
    } else {
        let rest = steps.drop_first();
        lemma_writes_bytes_frames(rest);
        let tail = frames_of(writes_of(rest));
        if steps[0].1.is_write() {
            let f = frames_of(writes_of(steps));
            assert(f =~= seq![command_frame(steps[0].1)] + tail);
            assert(f.drop_first() =~= tail);
            assert(f[0] == command_frame(steps[0].1));
        } else {
            assert(writes_of(steps) =~= writes_of(rest));
            assert(writes_bytes(steps) =~= writes_bytes(rest));
        }
    }
}

proof fn lemma_writes_fit(steps: Seq<Step>)
    requires
        forall|i: int| 0 <= i < steps.len() ==> command_fits(#[trigger] steps[i].1),
    ensures
        forall|i: int| 0 <= i < writes_of(steps).len() ==> command_fits(#[trigger] writes_of(steps)[i]),
    decreases steps.len(),
{
    if steps.len() > 0 {
        let rest = steps.drop_first();
        assert forall|i: int| 0 <= i < rest.len() implies command_fits(#[trigger] rest[i].1) by {
            assert(rest[i] == steps[i + 1]);
        }
        lemma_writes_fit(rest);
        assert(command_fits(steps[0].1));
        let head = if steps[0].1.is_write() {
            seq![steps[0].1]
        } else {
            Seq::<CommandView>::empty()
        };
        let w = writes_of(steps);
        assert(w == head + writes_of(rest));
        assert forall|i: int| 0 <= i < w.len() implies command_fits(#[trigger] w[i]) by {
            if i < head.len() {
                assert(w[i] == steps[0].1);
            } else {
                assert(w[i] == writes_of(rest)[i - head.len()]);
            }
        }
    }
}

/// What a follower reads from the bytes of a leader's writes: the decoder
/// yields one frame per write, in order, and each frame reads back as that
/// write's command.
pub proof fn lemma_follower_reads_writes_in_order(steps: Seq<Step>)
    requires
        forall|i: int| 0 <= i < steps.len() ==> command_fits(#[trigger] steps[i].1),
    ensures
        parse_stream(writes_bytes(steps)).len() == writes_of(steps).len(),
        forall|i: int|
            0 <= i < writes_of(steps).len() ==> command_from_frame(
                #[trigger] parse_stream(writes_bytes(steps))[i],
            ) == Ok::<CommandView, CommandError>(writes_of(steps)[i]),
{
    let cs = writes_of(steps);
    let frames = frames_of(cs);
    lemma_writes_fit(steps);
    assert forall|i: int| 0 <= i < frames.len() implies crate::resp::resp_wf(#[trigger] frames[i]) by {
        lemma_command_round_trip(cs[i]);
    }
    lemma_items_wf(frames);
    lemma_writes_bytes_frames(steps);
    lemma_stream_in_order(frames);
    assert forall|i: int| 0 <= i < cs.len() implies command_from_frame(
        #[trigger] parse_stream(writes_bytes(steps))[i],
    ) == Ok::<CommandView, CommandError>(cs[i]) by {
        lemma_command_round_trip(cs[i]);
    }
}

/// Round trip of a command: the decoder, given the bytes that carry a
/// command whose arguments fit bulk strings, with any bytes after them,
/// returns its frame and that frame's length, and the frame reads back as
/// the command.
pub proof fn lemma_command_bytes_round_trip(c: CommandView, rest: Seq<u8>)
    requires
        command_fits(c),
    ensures
        parse(serialized(c) + rest) == Parsed::Done(command_frame(c), serialized(c).len() as int),
        command_from_frame(command_frame(c)) == Ok::<CommandView, CommandError>(c),
{
    lemma_command_round_trip(c);
    lemma_round_trip(command_frame(c), rest);
}

/// The bytes of several commands, one after another.
pub open spec fn commands_bytes(cs: Seq<CommandView>) -> Seq<u8>
    decreases cs.len(),
{
    if cs.len() == 0 {
        Seq::empty()
    } else {
        serialized(cs[0]) + commands_bytes(cs.drop_first())
    }
}

proof fn lemma_commands_bytes_frames(cs: Seq<CommandView>)
    ensures
        commands_bytes(cs) == encode_items(frames_of(cs)),
    decreases cs.len(),
{
    if cs.len() > 0 {
        lemma_commands_bytes_frames(cs.drop_first());
        assert(frames_of(cs).drop_first() =~= frames_of(cs.drop_first()));
    } else {
        assert(frames_of(cs) =~= Seq::<RespValue>::empty());
    }
}

/// The decoder, fed the bytes of N commands whose arguments fit bulk
/// strings, one after another, yields exactly N frames, in order, and each
/// reads back as its command.
pub proof fn lemma_commands_stream_in_order(cs: Seq<CommandView>)
    requires
        forall|i: int| 0 <= i < cs.len() ==> command_fits(#[trigger] cs[i]),
    ensures
        parse_stream(commands_bytes(cs)).len() == cs.len(),
        forall|i: int|
            0 <= i < cs.len() ==> command_from_frame(#[trigger] parse_stream(commands_bytes(cs))[i])
                == Ok::<CommandView, CommandError>(cs[i]),
{
    let frames = frames_of(cs);
    assert forall|i: int| 0 <= i < frames.len() implies crate::resp::resp_wf(#[trigger] frames[i]) by {
        lemma_command_round_trip(cs[i]);
    }
    lemma_items_wf(frames);
    lemma_commands_bytes_frames(cs);
    lemma_stream_in_order(frames);
    assert forall|i: int| 0 <= i < cs.len() implies command_from_frame(
        #[trigger] parse_stream(commands_bytes(cs))[i],
    ) == Ok::<CommandView, CommandError>(cs[i]) by {
        lemma_command_round_trip(cs[i]);
    }
}

} // verus!
