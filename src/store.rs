//! The key-value store: byte-string keys to values with an optional
//! absolute expiry, in milliseconds. Time is handed in by the caller.
use vstd::prelude::*;
use crate::bytes::{bytes_eq, copy_of};

verus! {

/// What the store holds for a key: the value and when it expires.
pub type Slot = (Seq<u8>, Option<u64>);

pub struct Entry {
    pub key: Vec<u8>,
    pub value: Vec<u8>,
    pub expiry: Option<u64>,
}

pub struct Store {
    entries: Vec<Entry>,
}

pub open spec fn slot_of(e: Entry) -> Slot {
    (e.value@, e.expiry)
}

/// The map that a list of entries with distinct keys stands for.
pub open spec fn map_of(s: Seq<Entry>) -> Map<Seq<u8>, Slot>
    decreases s.len(),
{
    if s.len() == 0 {
        Map::empty()
    } else {
        map_of(s.drop_last()).insert(s.last().key@, slot_of(s.last()))
    }
}

pub open spec fn keys_unique(s: Seq<Entry>) -> bool {
    forall|i: int, j: int| 0 <= i < s.len() && 0 <= j < s.len() && i != j ==> s[i].key@ != s[j].key@
}

/// Whether a slot's expiry has come at `now`.
pub open spec fn expired(slot: Slot, now: u64) -> bool {
    match slot.1 {
        Some(t) => now >= t,
        None => false,
    }
}

/// What a read of `k` at `now` returns.
pub open spec fn lookup(m: Map<Seq<u8>, Slot>, k: Seq<u8>, now: u64) -> Option<Seq<u8>> {
    if m.contains_key(k) && !expired(m[k], now) {
        Some(m[k].0)
    } else {
        None
    }
}

/// The store after a read of `k` at `now`: a read that finds the key expired removes it.
pub open spec fn after_read(m: Map<Seq<u8>, Slot>, k: Seq<u8>, now: u64) -> Map<Seq<u8>, Slot> {
    if m.contains_key(k) && expired(m[k], now) {
        m.remove(k)
    } else {
        m
    }
}

/// The store after a purge of `k` scheduled for `expiry`: it removes the key
/// only if the key still holds that expiry.
pub open spec fn after_purge(m: Map<Seq<u8>, Slot>, k: Seq<u8>, expiry: u64) -> Map<Seq<u8>, Slot> {
    if m.contains_key(k) && m[k].1 == Some(expiry) {
        m.remove(k)
    } else {
        m
    }
}

/// The absolute expiry of a write at `now` with a lifetime of `px`
/// milliseconds; a sum beyond `u64` stands at `u64::MAX`.
pub open spec fn expiry_at(now: u64, px: Option<u64>) -> Option<u64> {
    match px {
        Some(ms) => if now + ms <= u64::MAX {
            Some((now + ms) as u64)
        } else {
            Some(u64::MAX)
        },
        None => None,
    }
}

proof fn lemma_map_of_lookup(s: Seq<Entry>, k: Seq<u8>)
    requires
        keys_unique(s),
    ensures
        map_of(s).contains_key(k) <==> exists|i: int| 0 <= i < s.len() && s[i].key@ == k,
        forall|i: int| 0 <= i < s.len() && s[i].key@ == k ==> map_of(s)[k] == slot_of(s[i]),
    decreases s.len(),
{
    if s.len() > 0 {
        let t = s.drop_last();
        assert(keys_unique(t));
        lemma_map_of_lookup(t, k);
        if map_of(s).contains_key(k) && s.last().key@ != k {
            let i = choose|i: int| 0 <= i < t.len() && t[i].key@ == k;
            assert(s[i].key@ == k);
        }
        if exists|i: int| 0 <= i < s.len() && s[i].key@ == k {
            let i = choose|i: int| 0 <= i < s.len() && s[i].key@ == k;
            if i < s.len() - 1 {
                assert(t[i].key@ == k);
            }
        }
        assert forall|i: int| 0 <= i < s.len() && s[i].key@ == k implies map_of(s)[k] == slot_of(
            s[i],
        ) by {
            if i < s.len() - 1 {
                assert(t[i] == s[i]);
                assert(s[i].key@ != s[s.len() - 1].key@);
            }
        }
    }
}

proof fn lemma_map_of_update(s: Seq<Entry>, i: int, e: Entry)
    requires
        keys_unique(s),
        0 <= i < s.len(),
        s[i].key@ == e.key@,
    ensures
        map_of(s.update(i, e)) == map_of(s).insert(e.key@, slot_of(e)),
        keys_unique(s.update(i, e)),
    decreases s.len(),
{
    let u = s.update(i, e);
    let t = s.drop_last();
    if i == s.len() - 1 {
        assert(u.drop_last() =~= t);
        assert(map_of(u) =~= map_of(s).insert(e.key@, slot_of(e)));
    } else {
        assert(keys_unique(t));
        lemma_map_of_update(t, i, e);
        assert(u.drop_last() =~= t.update(i, e));
        assert(s.last().key@ != e.key@);
        assert(map_of(u) =~= map_of(s).insert(e.key@, slot_of(e)));
    }
}

proof fn lemma_map_of_remove(s: Seq<Entry>, i: int)
    requires
        keys_unique(s),
        0 <= i < s.len(),
    ensures
        map_of(s.remove(i)) == map_of(s).remove(s[i].key@),
        keys_unique(s.remove(i)),
    decreases s.len(),
{
    let k = s[i].key@;
    let r = s.remove(i);
    let t = s.drop_last();
    assert(keys_unique(t));
    if i == s.len() - 1 {
        assert(r =~= t);
        lemma_map_of_lookup(t, k);
        assert(!map_of(t).contains_key(k));
        assert(map_of(r) =~= map_of(s).remove(k));
    } else {
        lemma_map_of_remove(t, i);
        assert(r.drop_last() =~= t.remove(i));
        assert(r.last() == s.last());
        assert(s.last().key@ != k);
        assert(map_of(r) =~= map_of(s).remove(k));
    }
}

impl View for Store {
    type V = Map<Seq<u8>, Slot>;

    closed spec fn view(&self) -> Map<Seq<u8>, Slot> {
        map_of(self.entries@)
    }
}

impl Store {
    /// The store's invariant: no key is held twice.
    pub closed spec fn wf(&self) -> bool {
        keys_unique(self.entries@)
    }

    pub fn new() -> (r: Store)
        ensures
            r.wf(),
            r@ == Map::<Seq<u8>, Slot>::empty(),
    {
        Store { entries: Vec::new() }
    }

    fn find(&self, key: &Vec<u8>) -> (r: Option<usize>)
        requires
            self.wf(),
        ensures
            match r {
                Some(i) => i < self.entries@.len() && self.entries@[i as int].key@ == key@,
                None => !self@.contains_key(key@),
            },
    {
        proof {
            lemma_map_of_lookup(self.entries@, key@);
        }
        let mut i: usize = 0;
        while i < self.entries.len()
            invariant
                i <= self.entries@.len(),
                forall|j: int| 0 <= j < i ==> self.entries@[j].key@ != key@,
            decreases self.entries@.len() - i,
        {
            if bytes_eq(self.entries[i].key.as_slice(), key.as_slice()) {
                return Some(i);
            }
            i = i + 1;
        }
        None
    }

    /// Stores `value` under `key` with an absolute expiry, replacing what was there.
    pub fn set(&mut self, key: Vec<u8>, value: Vec<u8>, expiry: Option<u64>)
        requires
            old(self).wf(),
        ensures
            final(self).wf(),
            final(self)@ == old(self)@.insert(key@, (value@, expiry)),
    {
        let e = Entry { key, value, expiry };
        match self.find(&e.key) {
            Some(i) => {
                proof {
                    lemma_map_of_update(self.entries@, i as int, e);
                }
                self.entries.set(i, e);
            },
            None => {
                proof {
                    lemma_map_of_lookup(self.entries@, e.key@);
                }
                let ghost before = self.entries@;
                let ghost ge = e;
                self.entries.push(e);
                assert(self.entries@.drop_last() =~= before);
                assert(self.entries@.last() == ge);
            },
        }
    }

    /// Stores `value` under `key` at time `now`, to expire `px` milliseconds later if given.
    pub fn set_at(&mut self, key: Vec<u8>, value: Vec<u8>, px: Option<u64>, now: u64)
        requires
            old(self).wf(),
        ensures
            final(self).wf(),
            final(self)@ == old(self)@.insert(key@, (value@, expiry_at(now, px))),
    {
        let expiry = match px {
            Some(ms) => Some(now.saturating_add(ms)),
            None => None,
        };
        self.set(key, value, expiry);
    }

    fn remove_at(&mut self, i: usize)
        requires
            old(self).wf(),
            i < old(self).entries@.len(),
        ensures
            final(self).wf(),
            final(self)@ == old(self)@.remove(old(self).entries@[i as int].key@),
    {
        proof {
            lemma_map_of_remove(self.entries@, i as int);
        }
        self.entries.remove(i);
    }

    /// Reads `key` at time `now`: its value, or `None` when it is absent or
    /// expired; an expired key is removed.
    pub fn get(&mut self, key: &Vec<u8>, now: u64) -> (r: Option<Vec<u8>>)
        requires
            old(self).wf(),
        ensures
            final(self).wf(),
            match r {
                Some(v) => lookup(old(self)@, key@, now) == Some(v@),
                None => lookup(old(self)@, key@, now) is None,
            },
            final(self)@ == after_read(old(self)@, key@, now),
    {
        match self.find(key) {
            Some(i) => {
                proof {
                    lemma_map_of_lookup(self.entries@, key@);
                }
                let live = match self.entries[i].expiry {
                    Some(t) => now < t,
                    None => true,
                };
                if live {
                    Some(copy_of(self.entries[i].value.as_slice()))
                } else {
                    self.remove_at(i);
                    None
                }
            },
            None => None,
        }
    }

    /// Removes `key` if it still holds the expiry that the purge was
    /// scheduled for; a key written again since then stays.
    pub fn purge(&mut self, key: &Vec<u8>, expiry: u64)
        requires
            old(self).wf(),
        ensures
            final(self).wf(),
            final(self)@ == after_purge(old(self)@, key@, expiry),
    {
        match self.find(key) {
            Some(i) => {
                proof {
                    lemma_map_of_lookup(self.entries@, key@);
                }
                let matches = match self.entries[i].expiry {
                    Some(t) => t == expiry,
                    None => false,
                };
                if matches {
                    self.remove_at(i);
                }
            },
            None => {},
        }
    }
}

/// One operation on the store.
pub enum StoreOp {
    /// A write of a key and value at a time, with an optional lifetime.
    Write(Seq<u8>, Seq<u8>, Option<u64>, u64),
    /// A read of a key at a time.
    Read(Seq<u8>, u64),
    /// A scheduled purge of a key for an expiry.
    Purge(Seq<u8>, u64),
}

pub open spec fn apply_op(m: Map<Seq<u8>, Slot>, op: StoreOp) -> Map<Seq<u8>, Slot> {
    match op {
        StoreOp::Write(k, v, px, now) => m.insert(k, (v, expiry_at(now, px))),
        StoreOp::Read(k, now) => after_read(m, k, now),
        StoreOp::Purge(k, e) => after_purge(m, k, e),
    }
}

pub open spec fn apply_ops(m: Map<Seq<u8>, Slot>, ops: Seq<StoreOp>) -> Map<Seq<u8>, Slot>
    decreases ops.len(),
{
    if ops.len() == 0 {
        m
    } else {
        apply_ops(apply_op(m, ops[0]), ops.drop_first())
    }
}

/// An operation that neither writes `k` nor finds it expired, for a key
/// that holds the expiry `exp`.
pub open spec fn spares(op: StoreOp, k: Seq<u8>, exp: Option<u64>) -> bool {
    match op {
        StoreOp::Write(k2, _, _, _) => k2 != k,
        StoreOp::Read(k2, now) => k2 != k || !expired((Seq::empty(), exp), now),
        StoreOp::Purge(k2, e) => k2 != k || exp != Some(e),
    }
}

/// A read after a write, with any operations between them that neither
/// write that key nor find it expired, and before the write's expiry,
/// returns the value written.
pub proof fn lemma_get_after_set_through(
    m: Map<Seq<u8>, Slot>,
    k: Seq<u8>,
    v: Seq<u8>,
    px: Option<u64>,
    set_time: u64,
    ops: Seq<StoreOp>,
    now: u64,
)
    requires
        forall|i: int| 0 <= i < ops.len() ==> spares(#[trigger] ops[i], k, expiry_at(set_time, px)),
        !expired((v, expiry_at(set_time, px)), now),
    ensures
        lookup(apply_ops(m.insert(k, (v, expiry_at(set_time, px))), ops), k, now) == Some(v),
{
    lemma_slot_kept(m.insert(k, (v, expiry_at(set_time, px))), k, (v, expiry_at(set_time, px)), ops);
}

proof fn lemma_slot_kept(m: Map<Seq<u8>, Slot>, k: Seq<u8>, slot: Slot, ops: Seq<StoreOp>)
    requires
        m.contains_key(k),
        m[k] == slot,
        forall|i: int| 0 <= i < ops.len() ==> spares(#[trigger] ops[i], k, slot.1),
    ensures
        apply_ops(m, ops).contains_key(k),
        apply_ops(m, ops)[k] == slot,
    decreases ops.len(),
{
    if ops.len() > 0 {
        let m2 = apply_op(m, ops[0]);
        assert(spares(ops[0], k, slot.1));
        assert(m2.contains_key(k) && m2[k] == slot);
        assert forall|i: int| 0 <= i < ops.drop_first().len() implies spares(
            #[trigger] ops.drop_first()[i],
            k,
            slot.1,
        ) by {
            assert(ops.drop_first()[i] == ops[i + 1]);
        }
        lemma_slot_kept(m2, k, slot, ops.drop_first());
    }
}

proof fn lemma_slot_kept_or_gone(m: Map<Seq<u8>, Slot>, k: Seq<u8>, slot: Slot, ops: Seq<StoreOp>)
    requires
        !m.contains_key(k) || m[k] == slot,
        forall|i: int| 0 <= i < ops.len() ==> !(#[trigger] ops[i] matches StoreOp::Write(k2, _, _, _) && k2 == k),
    ensures
        !apply_ops(m, ops).contains_key(k) || apply_ops(m, ops)[k] == slot,
    decreases ops.len(),
{
    if ops.len() > 0 {
        let rest = ops.drop_first();
        assert(!(ops[0] matches StoreOp::Write(k2, _, _, _) && k2 == k));
        assert forall|i: int| 0 <= i < rest.len() implies !(#[trigger] rest[i] matches StoreOp::Write(
            k2,
            _,
            _,
            _,
        ) && k2 == k) by {
            assert(rest[i] == ops[i + 1]);
        }
        lemma_slot_kept_or_gone(apply_op(m, ops[0]), k, slot, rest);
    }
}

/// A read of a key written with a lifetime of `px` milliseconds, at any
/// time at least `px` after the write, finds nothing, whatever operations
/// came between them, provided none wrote that key again.
pub proof fn lemma_get_after_expiry_through(
    m: Map<Seq<u8>, Slot>,
    k: Seq<u8>,
    v: Seq<u8>,
    px: u64,
    set_time: u64,
    ops: Seq<StoreOp>,
    now: u64,
)
    requires
        forall|i: int| 0 <= i < ops.len() ==> !(#[trigger] ops[i] matches StoreOp::Write(k2, _, _, _) && k2 == k),
        now >= set_time + px,
    ensures
        lookup(apply_ops(m.insert(k, (v, expiry_at(set_time, Some(px)))), ops), k, now) is None,
{
    lemma_slot_kept_or_gone(
        m.insert(k, (v, expiry_at(set_time, Some(px)))),
        k,
        (v, expiry_at(set_time, Some(px))),
        ops,
    );
}

/// A read after a write, with no later write to that key and before the
/// write's expiry, returns the value written.
pub proof fn lemma_get_after_set(
    m: Map<Seq<u8>, Slot>,
    k: Seq<u8>,
    v: Seq<u8>,
    px: Option<u64>,
    set_time: u64,
    now: u64,
)
    requires
        match expiry_at(set_time, px) {
            Some(t) => now < t,
            None => true,
        },
    ensures
        lookup(m.insert(k, (v, expiry_at(set_time, px))), k, now) == Some(v),
{
}

/// A read of a key written with a lifetime of `px` milliseconds, at any
/// time at least `px` after the write, finds nothing.
pub proof fn lemma_get_after_expiry(
    m: Map<Seq<u8>, Slot>,
    k: Seq<u8>,
    v: Seq<u8>,
    px: u64,
    set_time: u64,
    now: u64,
)
    requires
        now >= set_time + px,
    ensures
        lookup(m.insert(k, (v, expiry_at(set_time, Some(px)))), k, now) is None,
{
}

} // verus!
