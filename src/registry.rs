//! The leader's registry of follower connections, in the order they
//! registered. Each follower has an outbound queue: every byte the leader
//! sends it goes through that queue, so frames reach it in the order they
//! were queued. A follower answers requests for its offset in order, so
//! counting requests sent and answers received tells which answer belongs
//! to the latest request.
use vstd::prelude::*;

verus! {

struct FollowerLink {
    id: u64,
    outbox: Vec<u8>,
    requested: u64,
    received: u64,
    answer: Option<u64>,
}

/// What the registry holds for one follower.
pub struct FollowerView {
    pub id: u64,
    /// Bytes queued for the follower and not yet handed to its socket.
    pub outbox: Seq<u8>,
    /// How many requests for its offset have been queued for the follower.
    pub requested: u64,
    /// How many of those requests the follower has answered.
    pub received: u64,
    /// The offset that answered the latest request, once it has come.
    pub answer: Option<u64>,
}

pub struct Registry {
    links: Vec<FollowerLink>,
}

spec fn link_view(l: FollowerLink) -> FollowerView {
    FollowerView {
        id: l.id,
        outbox: l.outbox@,
        requested: l.requested,
        received: l.received,
        answer: l.answer,
    }
}

pub open spec fn ids_unique(r: Seq<FollowerView>) -> bool {
    forall|i: int, j: int| 0 <= i < r.len() && 0 <= j < r.len() && i != j ==> r[i].id != r[j].id
}

pub open spec fn position_of(r: Seq<FollowerView>, id: u64) -> Option<int> {
    if exists|i: int| 0 <= i < r.len() && r[i].id == id {
        Some(choose|i: int| 0 <= i < r.len() && r[i].id == id)
    } else {
        None
    }
}

/// The followers' ids, in registration order.
pub open spec fn ids_of(r: Seq<FollowerView>) -> Seq<u64> {
    r.map_values(|f: FollowerView| f.id)
}

/// The registry after `frame` is queued for every follower.
pub open spec fn with_frame(r: Seq<FollowerView>, frame: Seq<u8>) -> Seq<FollowerView> {
    r.map_values(|f: FollowerView| FollowerView { outbox: f.outbox + frame, ..f })
}

/// The registry after `frame`, a request for offsets, is queued for every
/// follower: one more request each, and no answer to it yet.
pub open spec fn with_getack(r: Seq<FollowerView>, frame: Seq<u8>) -> Seq<FollowerView> {
    r.map_values(
        |f: FollowerView|
            FollowerView {
                outbox: f.outbox + frame,
                requested: if f.requested < u64::MAX {
                    (f.requested + 1) as u64
                } else {
                    f.requested
                },
                answer: None,
                ..f
            },
    )
}

/// Whether every follower has answered every request for its offset.
pub open spec fn all_answered(r: Seq<FollowerView>) -> bool {
    forall|i: int| 0 <= i < r.len() ==> #[trigger] r[i].received == r[i].requested
}

/// The follower's state after an acknowledgement of `offset`: it answers the
/// oldest unanswered request, and is the answer to the latest one when no
/// other request is outstanding; with no request outstanding it is ignored.
pub open spec fn after_ack(f: FollowerView, offset: u64) -> FollowerView {
    if f.received < f.requested {
        FollowerView {
            received: (f.received + 1) as u64,
            answer: if f.received + 1 == f.requested {
                Some(offset)
            } else {
                f.answer
            },
            ..f
        }
    } else {
        f
    }
}

/// The registry after follower `id` acknowledges `offset`.
pub open spec fn with_ack(r: Seq<FollowerView>, id: u64, offset: u64) -> Seq<FollowerView> {
    match position_of(r, id) {
        Some(i) => r.update(i, after_ack(r[i], offset)),
        None => r,
    }
}

/// Whether a follower's answer to the latest request reaches `target` bytes.
pub open spec fn answered_at_least(f: FollowerView, target: u64) -> bool {
    match f.answer {
        Some(o) => o >= target,
        None => false,
    }
}

/// How many followers answered the latest request for their offset with at
/// least `target` bytes.
pub open spec fn count_caught_up(r: Seq<FollowerView>, target: u64) -> nat
    decreases r.len(),
{
    if r.len() == 0 {
        0
    } else {
        count_caught_up(r.drop_last(), target) + if answered_at_least(r.last(), target) {
            1nat
        } else {
            0nat
        }
    }
}

proof fn lemma_count_without_answers(r: Seq<FollowerView>, target: u64)
    requires
        forall|i: int| 0 <= i < r.len() ==> #[trigger] r[i].answer is None,
    ensures
        count_caught_up(r, target) == 0,
    decreases r.len(),
{
    if r.len() > 0 {
        assert(r.last().answer is None);
        assert forall|i: int| 0 <= i < r.drop_last().len() implies #[trigger] r.drop_last()[i].answer is None by {
            assert(r.drop_last()[i] == r[i]);
        }
        lemma_count_without_answers(r.drop_last(), target);
    }
}

/// Right after a request for offsets goes out, no follower counts towards
/// any target: an answer to an earlier request never stands for this one.
pub proof fn lemma_fresh_request_counts_nothing(r: Seq<FollowerView>, frame: Seq<u8>, target: u64)
    ensures
        count_caught_up(with_getack(r, frame), target) == 0,
{
    lemma_count_without_answers(with_getack(r, frame), target);
}

/// A follower that had answered every earlier request, and then answers the
/// latest one with `offset`, has `offset` as its answer; until it does, its
/// answer is missing and the WAIT is not over.
pub proof fn lemma_answer_is_latest(r: Seq<FollowerView>, frame: Seq<u8>, i: int, offset: u64)
    requires
        ids_unique(r),
        0 <= i < r.len(),
        r[i].received == r[i].requested,
        r[i].requested < u64::MAX,
    ensures
        with_getack(r, frame)[i].answer is None,
        !all_answered(with_getack(r, frame)),
        with_ack(with_getack(r, frame), r[i].id, offset)[i].answer == Some(offset),
{
    let g = with_getack(r, frame);
    assert(g[i].received != g[i].requested);
    assert(ids_unique(g)) by {
        assert forall|a: int, b: int| 0 <= a < g.len() && 0 <= b < g.len() && a != b implies g[a].id
            != g[b].id by {
            assert(g[a].id == r[a].id && g[b].id == r[b].id);
        }
    }
    assert(g[i].id == r[i].id);
    let c = choose|j: int| 0 <= j < g.len() && g[j].id == r[i].id;
    assert(c == i);
}

impl View for Registry {
    type V = Seq<FollowerView>;

    closed spec fn view(&self) -> Seq<FollowerView> {
        self.links@.map_values(|l: FollowerLink| link_view(l))
    }
}

impl Registry {
    /// The registry's invariant: no follower is registered twice.
    pub open spec fn wf(&self) -> bool {
        ids_unique(self@)
    }

    pub fn new() -> (r: Registry)
        ensures
            r.wf(),
            r@ == Seq::<FollowerView>::empty(),
    {
        let r = Registry { links: Vec::new() };
        assert(r@ =~= Seq::<FollowerView>::empty());
        r
    }

    /// The number of registered followers.
    pub fn len(&self) -> (r: usize)
        ensures
            r == self@.len(),
    {
        self.links.len()
    }

    fn find(&self, id: u64) -> (r: Option<usize>)
        requires
            self.wf(),
        ensures
            match r {
                Some(i) => position_of(self@, id) == Some(i as int) && i < self@.len()
                    && self@[i as int].id == id,
                None => position_of(self@, id) is None,
            },
    {
        let mut i: usize = 0;
        while i < self.links.len()
            invariant
                i <= self@.len(),
                ids_unique(self@),
                self@.len() == self.links@.len(),
                forall|j: int| 0 <= j < self@.len() ==> #[trigger] self@[j] == link_view(self.links@[j]),
                forall|j: int| 0 <= j < i ==> self@[j].id != id,
            decreases self.links@.len() - i,
        {
            if self.links[i].id == id {
                assert(self@[i as int].id == id);
                let ghost c = choose|j: int| 0 <= j < self@.len() && self@[j].id == id;
                assert(c == i);
                return Some(i);
            }
            i = i + 1;
        }
        None
    }

    /// Whether `id` is registered.
    pub fn contains(&self, id: u64) -> (r: bool)
        requires
            self.wf(),
        ensures
            r == (position_of(self@, id) is Some),
    {
        self.find(id).is_some()
    }

    /// Registers a follower whose queue starts with `first`; a follower
    /// already registered stays as it is.
    pub fn add(&mut self, id: u64, first: Vec<u8>) -> (added: bool)
        requires
            old(self).wf(),
        ensures
            final(self).wf(),
            added == (position_of(old(self)@, id) is None),
            added ==> final(self)@ == old(self)@.push(
                FollowerView { id, outbox: first@, requested: 0, received: 0, answer: None },
            ),
            !added ==> final(self)@ == old(self)@,
    {
        if self.find(id).is_some() {
            return false;
        }
        let ghost before = self@;
        let ghost f = first@;
        self.links.push(FollowerLink { id, outbox: first, requested: 0, received: 0, answer: None });
        assert(self@ =~= before.push(
            FollowerView { id, outbox: f, requested: 0, received: 0, answer: None },
        ));
        true
    }

    /// Removes a follower, when its connection ends.
    pub fn remove(&mut self, id: u64)
        requires
            old(self).wf(),
        ensures
            final(self).wf(),
            match position_of(old(self)@, id) {
                Some(i) => final(self)@ == old(self)@.remove(i),
                None => final(self)@ == old(self)@,
            },
    {
        if let Some(i) = self.find(id) {
            let ghost before = self@;
            self.links.remove(i);
            assert(self@ =~= before.remove(i as int));
        }
    }

    /// The registered ids, in registration order.
    pub fn snapshot(&self) -> (r: Vec<u64>)
        ensures
            r@ == ids_of(self@),
    {
        let mut out: Vec<u64> = Vec::new();
        let mut i: usize = 0;
        while i < self.links.len()
            invariant
                i <= self.links@.len(),
                out@ == ids_of(self@).subrange(0, i as int),
            decreases self.links@.len() - i,
        {
            out.push(self.links[i].id);
            i = i + 1;
            assert(out@ =~= ids_of(self@).subrange(0, i as int));
        }
        assert(ids_of(self@).subrange(0, i as int) =~= ids_of(self@));
        out
    }

    /// Queues `frame` for every follower, after what is already queued.
    pub fn propagate(&mut self, frame: &Vec<u8>)
        requires
            old(self).wf(),
        ensures
            final(self).wf(),
            final(self)@ == with_frame(old(self)@, frame@),
    {
        let ghost before = self@;
        let mut i: usize = 0;
        while i < self.links.len()
            invariant
                i <= self.links@.len(),
                self@.len() == before.len(),
                forall|j: int| 0 <= j < i ==> #[trigger] self@[j] == with_frame(before, frame@)[j],
                forall|j: int| i <= j < before.len() ==> #[trigger] self@[j] == before[j],
            decreases self.links@.len() - i,
        {
            let ghost links0 = self.links@;
            let ghost view0 = self@;
            let FollowerLink { id: link_id, outbox: mut queue, requested, received, answer } =
                self.links.remove(i);
            let mut k: usize = 0;
            let ghost start = queue@;
            while k < frame.len()
                invariant
                    k <= frame@.len(),
                    queue@ == start + frame@.subrange(0, k as int),
                decreases frame@.len() - k,
            {
                queue.push(frame[k]);
                k = k + 1;
                assert(queue@ =~= start + frame@.subrange(0, k as int));
            }
            assert(frame@.subrange(0, k as int) =~= frame@);
            let link = FollowerLink { id: link_id, outbox: queue, requested, received, answer };
            let ghost glink = link;
            self.links.insert(i, link);
            assert(self.links@ =~= links0.update(i as int, glink));
            assert(self@ =~= view0.update(i as int, link_view(glink)));
            assert(view0[i as int] == before[i as int]);
            assert(view0[i as int] == link_view(links0[i as int]));
            assert(link_view(glink) == with_frame(before, frame@)[i as int]);
            i = i + 1;
        }
        assert(self@ =~= with_frame(before, frame@));
    }

    /// Queues `frame`, a request for offsets, for every follower, after what
    /// is already queued; each follower now owes one more answer.
    pub fn request_acks(&mut self, frame: &Vec<u8>)
        requires
            old(self).wf(),
        ensures
            final(self).wf(),
            final(self)@ == with_getack(old(self)@, frame@),
    {
        self.propagate(frame);
        let ghost before = self@;
        let mut i: usize = 0;
        while i < self.links.len()
            invariant
                i <= self.links@.len(),
                self@.len() == before.len(),
                forall|j: int|
                    0 <= j < i ==> #[trigger] self@[j] == (FollowerView {
                        requested: if before[j].requested < u64::MAX {
                            (before[j].requested + 1) as u64
                        } else {
                            before[j].requested
                        },
                        answer: None,
                        ..before[j]
                    }),
                forall|j: int| i <= j < before.len() ==> #[trigger] self@[j] == before[j],
            decreases self.links@.len() - i,
        {
            let ghost links0 = self.links@;
            let ghost view0 = self@;
            let mut link = self.links.remove(i);
            if link.requested < u64::MAX {
                link.requested = link.requested + 1;
            }
            link.answer = None;
            let ghost glink = link;
            self.links.insert(i, link);
            assert(self.links@ =~= links0.update(i as int, glink));
            assert(self@ =~= view0.update(i as int, link_view(glink)));
            assert(view0[i as int] == link_view(links0[i as int]));
            i = i + 1;
        }
        assert(self@ =~= with_getack(old(self)@, frame@));
    }

    /// Whether a WAIT is over: every follower has answered every request
    /// for its offset.
    pub fn wait_over(&self) -> (r: bool)
        ensures
            r == all_answered(self@),
    {
        let mut i: usize = 0;
        while i < self.links.len()
            invariant
                i <= self.links@.len(),
                self@.len() == self.links@.len(),
                forall|j: int| 0 <= j < i ==> #[trigger] self@[j].received == self@[j].requested,
            decreases self.links@.len() - i,
        {
            if self.links[i].received != self.links[i].requested {
                assert(self@[i as int].received != self@[i as int].requested);
                return false;
            }
            i = i + 1;
        }
        true
    }

    /// Hands over what is queued for `id`, leaving its queue empty; nothing
    /// for an id that is not registered.
    pub fn take_outbox(&mut self, id: u64) -> (r: Vec<u8>)
        requires
            old(self).wf(),
        ensures
            final(self).wf(),
            match position_of(old(self)@, id) {
                Some(i) => r@ == old(self)@[i].outbox && final(self)@ == old(self)@.update(
                    i,
                    FollowerView { outbox: Seq::empty(), ..old(self)@[i] },
                ),
                None => r@ == Seq::<u8>::empty() && final(self)@ == old(self)@,
            },
    {
        match self.find(id) {
            Some(i) => {
                let ghost before = self@;
                let link = self.links.remove(i);
                let FollowerLink { id: link_id, outbox: out, requested, received, answer } = link;
                self.links.insert(
                    i,
                    FollowerLink { id: link_id, outbox: Vec::new(), requested, received, answer },
                );
                assert(self@ =~= before.update(
                    i as int,
                    FollowerView { outbox: Seq::empty(), ..before[i as int] },
                ));
                out
            },
            None => Vec::new(),
        }
    }

    /// Records that follower `id` acknowledged `offset` bytes, in answer to
    /// its oldest unanswered request.
    pub fn record_ack(&mut self, id: u64, offset: u64)
        requires
            old(self).wf(),
        ensures
            final(self).wf(),
            final(self)@ == with_ack(old(self)@, id, offset),
    {
        if let Some(i) = self.find(id) {
            let ghost before = self@;
            let ghost links0 = self.links@;
            let mut link = self.links.remove(i);
            if link.received < link.requested {
                link.received = link.received + 1;
                if link.received == link.requested {
                    link.answer = Some(offset);
                }
            }
            let ghost glink = link;
            self.links.insert(i, link);
            assert(self.links@ =~= links0.update(i as int, glink));
            assert(before[i as int] == link_view(links0[i as int]));
            assert(link_view(glink) == after_ack(before[i as int], offset));
            assert(self@ =~= before.update(i as int, after_ack(before[i as int], offset)));
        }
    }

    /// How many followers answered the latest request for their offset with
    /// at least `target` bytes.
    pub fn caught_up(&self, target: u64) -> (r: u64)
        ensures
            r == count_caught_up(self@, target),
    {
        let mut n: u64 = 0;
        let mut i: usize = 0;
        while i < self.links.len()
            invariant
                i <= self.links@.len(),
                self@.len() == self.links@.len(),
                n == count_caught_up(self@.subrange(0, i as int), target),
                n <= i,
            decreases self.links@.len() - i,
        {
            proof {
                assert(self@.subrange(0, i + 1).drop_last() =~= self@.subrange(0, i as int));
            }
            let reached = match self.links[i].answer {
                Some(o) => o >= target,
                None => false,
            };
            if reached {
                n = n + 1;
            }
            i = i + 1;
        }
        assert(self@.subrange(0, i as int) =~= self@);
        n
    }
}

} // verus!
