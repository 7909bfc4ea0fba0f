//! What a stream remembers of its idempotent producers: one state per
//! producer id.

use super::memory::{live_producers, producer_stale};
use super::{ProducerState, PRODUCER_STATE_TTL_MS};
use crate::text::str_eq;
use vstd::prelude::*;

verus! {

/// What a stream remembers of one producer.
pub struct ProducerSlot {
    pub id: String,
    pub state: ProducerState,
}

/// No producer id occurs twice.
pub open spec fn ids_unique(s: Seq<ProducerSlot>) -> bool {
    forall|i: int, j: int|
        0 <= i < s.len() && 0 <= j < s.len() && i != j ==> #[trigger] s[i].id@ != #[trigger] s[j].id@
}

/// Some slot holds producer `k`.
pub open spec fn has_producer(s: Seq<ProducerSlot>, k: Seq<char>) -> bool {
    exists|i: int| 0 <= i < s.len() && #[trigger] s[i].id@ == k
}

/// The producer states of a slot list, by id.
pub open spec fn producer_map(s: Seq<ProducerSlot>) -> Map<Seq<char>, ProducerState> {
    Map::new(
        |k: Seq<char>| has_producer(s, k),
        |k: Seq<char>| s[choose|i: int| 0 <= i < s.len() && #[trigger] s[i].id@ == k].state,
    )
}

pub proof fn lemma_producer_at(s: Seq<ProducerSlot>, i: int)
    requires
        ids_unique(s),
        0 <= i < s.len(),
    ensures
        producer_map(s).contains_key(s[i].id@),
        producer_map(s)[s[i].id@] == s[i].state,
{
    let k = s[i].id@;
    assert(has_producer(s, k));
    let j = choose|j: int| 0 <= j < s.len() && #[trigger] s[j].id@ == k;
    if j != i {
        assert(s[i].id@ != s[j].id@);
    }
}

/// Two slot lists with unique ids whose maps agree on every id of the
/// first have equal maps when they have the same ids.
pub proof fn lemma_producer_map_ext(
    s: Seq<ProducerSlot>,
    t: Seq<ProducerSlot>,
    m: Map<Seq<char>, ProducerState>,
)
    requires
        ids_unique(t),
        forall|k: Seq<char>| m.contains_key(k) <==> has_producer(t, k),
        forall|i: int| 0 <= i < t.len() ==> m[#[trigger] t[i].id@] == t[i].state,
    ensures
        producer_map(t) == m,
{
    assert forall|k: Seq<char>| #[trigger] m.contains_key(k) implies producer_map(t)[k] == m[k] by {
        assert(has_producer(t, k));
        let i = choose|i: int| 0 <= i < t.len() && #[trigger] t[i].id@ == k;
        lemma_producer_at(t, i);
    }
    assert(producer_map(t) =~= m);
}

/// The map of slots with unique ids has one entry per slot.
pub proof fn lemma_map_len(s: Seq<ProducerSlot>)
    requires
        ids_unique(s),
    ensures
        producer_map(s).len() == s.len(),
        producer_map(s).dom().finite(),
    decreases s.len(),
{
    if s.len() == 0 {
        assert(producer_map(s).dom() =~= Set::<Seq<char>>::empty());
    } else {
        let t = s.drop_last();
        assert forall|a: int, b: int| 0 <= a < t.len() && 0 <= b < t.len() && a != b implies #[trigger] t[a].id@ != #[trigger] t[b].id@ by {
            assert(t[a] == s[a] && t[b] == s[b]);
        }
        lemma_map_len(t);
        let k = s.last().id@;
        assert(!producer_map(t).dom().contains(k)) by {
            if has_producer(t, k) {
                let q = choose|q: int| 0 <= q < t.len() && #[trigger] t[q].id@ == k;
                assert(s[q].id@ == s[s.len() - 1].id@);
            }
        }
        assert(producer_map(s).dom() =~= producer_map(t).dom().insert(k)) by {
            assert forall|x: Seq<char>| producer_map(s).dom().contains(x) <==> producer_map(t).dom().insert(k).contains(x) by {
                if has_producer(s, x) && x != k {
                    let q = choose|q: int| 0 <= q < s.len() && #[trigger] s[q].id@ == x;
                    assert(q < t.len());
                    assert(t[q] == s[q]);
                }
                if has_producer(t, x) {
                    let q = choose|q: int| 0 <= q < t.len() && #[trigger] t[q].id@ == x;
                    assert(s[q] == t[q]);
                }
                if x == k {
                    assert(s[s.len() - 1].id@ == k);
                }
            }
        }
    }
}

/// The producer states of a stream, by producer id.
pub struct ProducerBook {
    slots: Vec<ProducerSlot>,
}

impl View for ProducerBook {
    type V = Map<Seq<char>, ProducerState>;

    closed spec fn view(&self) -> Map<Seq<char>, ProducerState> {
        producer_map(self.slots@)
    }
}

/// The map built by recording `entries` in order, a later entry for an id
/// replacing an earlier one.
pub open spec fn entries_map(entries: Seq<(String, ProducerState)>) -> Map<Seq<char>, ProducerState>
    decreases entries.len(),
{
    if entries.len() == 0 {
        Map::empty()
    } else {
        entries_map(entries.drop_last()).insert(entries.last().0@, entries.last().1)
    }
}

impl ProducerBook {
    /// No producer id is recorded twice.
    pub closed spec fn wf(&self) -> bool {
        ids_unique(self.slots@)
    }

    /// No producers.
    pub fn new() -> (b: ProducerBook)
        ensures
            b.wf(),
            b@ == Map::<Seq<char>, ProducerState>::empty(),
    {
        let b = ProducerBook { slots: Vec::new() };
        assert(producer_map(b.slots@) =~= Map::empty());
        b
    }

    /// The state recorded for producer `id`, if any.
    pub fn get(&self, id: &str) -> (r: Option<&ProducerState>)
        requires
            self.wf(),
        ensures
            match r {
                Some(st) => self@.contains_key(id@) && self@[id@] == *st,
                None => !self@.contains_key(id@),
            },
    {
        match self.find_producer(id) {
            Some(k) => {
                proof {
                    lemma_producer_at(self.slots@, k as int);
                }
                Some(&self.slots[k].state)
            },
            None => None,
        }
    }

    /// Every recorded producer and its state.
    pub fn entries(&self) -> (v: Vec<(String, ProducerState)>)
        requires
            self.wf(),
        ensures
            v@.len() == self@.len(),
            forall|i: int| 0 <= i < v@.len() ==> #[trigger] self@.contains_key(v@[i].0@) && self@[v@[i].0@] == v@[i].1,
            forall|i: int, j: int| 0 <= i < v@.len() && 0 <= j < v@.len() && i != j ==> #[trigger] v@[i].0@ != #[trigger] v@[j].0@,
    {
        let mut v: Vec<(String, ProducerState)> = Vec::new();
        let mut i: usize = 0;
        while i < self.slots.len()
            invariant
                i <= self.slots@.len(),
                ids_unique(self.slots@),
                v@.len() == i,
                forall|j: int| 0 <= j < i ==> #[trigger] v@[j].0@ == self.slots@[j].id@ && v@[j].1 == self.slots@[j].state,
            decreases self.slots.len() - i,
        {
            let id = self.slots[i].id.clone();
            v.push((id, self.slots[i].state));
            i = i + 1;
        }
        proof {
            assert forall|j: int| 0 <= j < v@.len() implies #[trigger] self@.contains_key(v@[j].0@) && self@[v@[j].0@] == v@[j].1 by {
                lemma_producer_at(self.slots@, j);
            }
            lemma_map_len(self.slots@);
        }
        v
    }

    /// A book holding `entries`, a later entry for an id replacing an
    /// earlier one.
    pub fn from_entries(entries: Vec<(String, ProducerState)>) -> (b: ProducerBook)
        ensures
            b.wf(),
            b@ == entries_map(entries@),
    {
        let mut b = ProducerBook::new();
        let ghost all = entries@;
        for e in it: entries
            invariant
                b.wf(),
                all == it.seq(),
                b@ == entries_map(all.take(it.index() as int)),
        {
            let ghost k = it.index() as int;
            assert(all.take(k + 1).drop_last() =~= all.take(k));
            assert(all.take(k + 1).last() == e);
            b.set(e.0, e.1);
        }
        assert(all.take(all.len() as int) =~= all);
        b
    }

    /// The slot index of producer `id`, if recorded.
    fn find_producer(&self, id: &str) -> (r: Option<usize>)
        ensures
            match r {
                Some(i) => i < self.slots@.len() && self.slots@[i as int].id@ == id@,
                None => !has_producer(self.slots@, id@),
            },
    {
        let mut i: usize = 0;
        while i < self.slots.len()
            invariant
                i <= self.slots@.len(),
                forall|j: int| 0 <= j < i ==> #[trigger] self.slots@[j].id@ != id@,
            decreases self.slots.len() - i,
        {
            if str_eq(self.slots[i].id.as_str(), id) {
                return Some(i);
            }
            i = i + 1;
        }
        None
    }

    /// Drops the producer states that have outlived their retention at `now`.
    pub fn drop_stale(&mut self, now: i64)
        requires
            old(self).wf(),
        ensures
            final(self).wf(),
            final(self)@ == live_producers(old(self)@, now),
    {
        let ghost old_slots = self.slots@;
        let ghost m = producer_map(old_slots);
        let ghost target = live_producers(m, now);
        let mut kept: Vec<ProducerSlot> = Vec::new();
        let mut i: usize = 0;
        while i < self.slots.len()
            invariant
                i <= old_slots.len(),
                self.slots@ == old_slots,
                ids_unique(old_slots),
                m == producer_map(old_slots),
                target == live_producers(m, now),
                ids_unique(kept@),
                forall|j: int|
                    #![trigger kept@[j]]
                    0 <= j < kept@.len() ==> exists|q: int|
                        0 <= q < i && #[trigger] old_slots[q] == kept@[j] && !producer_stale(
                            old_slots[q].state,
                            now,
                        ),
                forall|q: int|
                    0 <= q < i && !producer_stale(old_slots[q].state, now) ==> has_producer(
                        kept@,
                        #[trigger] old_slots[q].id@,
                    ),
            decreases old_slots.len() - i,
        {
            let st = self.slots[i].state;
            if !(now as i128 - st.updated_at as i128 > PRODUCER_STATE_TTL_MS as i128) {
                let ghost before = kept@;
                let slot = ProducerSlot { id: self.slots[i].id.clone(), state: st };
                kept.push(slot);
                proof {
                    assert(kept@[before.len() as int].id@ == old_slots[i as int].id@);
                    assert(kept@[before.len() as int] == old_slots[i as int]);
                    assert forall|a: int, b: int|
                        0 <= a < kept@.len() && 0 <= b < kept@.len() && a != b implies #[trigger] kept@[a].id@
                        != #[trigger] kept@[b].id@ by {
                        if a < before.len() && b < before.len() {
                            assert(kept@[a] == before[a]);
                            assert(kept@[b] == before[b]);
                        } else if a < before.len() {
                            let qa = choose|q: int|
                                0 <= q < i && #[trigger] old_slots[q] == before[a] && !producer_stale(
                                    old_slots[q].state,
                                    now,
                                );
                            assert(kept@[a] == before[a]);
                            assert(old_slots[qa].id@ != old_slots[i as int].id@);
                        } else if b < before.len() {
                            let qb = choose|q: int|
                                0 <= q < i && #[trigger] old_slots[q] == before[b] && !producer_stale(
                                    old_slots[q].state,
                                    now,
                                );
                            assert(kept@[b] == before[b]);
                            assert(old_slots[qb].id@ != old_slots[i as int].id@);
                        }
                    }
                    assert forall|j: int| #![trigger kept@[j]] 0 <= j < kept@.len() implies exists|q: int|
                        0 <= q < i + 1 && #[trigger] old_slots[q] == kept@[j] && !producer_stale(
                            old_slots[q].state,
                            now,
                        ) by {
                        if j < before.len() {
                            assert(kept@[j] == before[j]);
                        } else {
                            assert(old_slots[i as int] == kept@[j]);
                        }
                    }
                    assert forall|q: int|
                        0 <= q < i + 1 && !producer_stale(old_slots[q].state, now) implies has_producer(
                        kept@,
                        #[trigger] old_slots[q].id@,
                    ) by {
                        if q < i {
                            let j = choose|j: int|
                                0 <= j < before.len() && #[trigger] before[j].id@ == old_slots[q].id@;
                            assert(kept@[j] == before[j]);
                        } else {
                            assert(kept@[before.len() as int].id@ == old_slots[q].id@);
                        }
                    }
                }
            }
            i = i + 1;
        }
        proof {
            assert forall|k: Seq<char>| target.contains_key(k) <==> has_producer(kept@, k) by {
                if target.contains_key(k) {
                    let q = choose|q: int| 0 <= q < old_slots.len() && #[trigger] old_slots[q].id@ == k;
                    lemma_producer_at(old_slots, q);
                }
                if has_producer(kept@, k) {
                    let j = choose|j: int| 0 <= j < kept@.len() && #[trigger] kept@[j].id@ == k;
                    let q = choose|q: int|
                        0 <= q < i && #[trigger] old_slots[q] == kept@[j] && !producer_stale(
                            old_slots[q].state,
                            now,
                        );
                    lemma_producer_at(old_slots, q);
                }
            }
            assert forall|j: int| 0 <= j < kept@.len() implies target[#[trigger] kept@[j].id@]
                == kept@[j].state by {
                let q = choose|q: int|
                    0 <= q < i && #[trigger] old_slots[q] == kept@[j] && !producer_stale(
                        old_slots[q].state,
                        now,
                    );
                lemma_producer_at(old_slots, q);
            }
            lemma_producer_map_ext(old_slots, kept@, target);
        }
        self.slots = kept;
    }

    /// Records producer `id` with state `st`, replacing any earlier state.
    pub fn set(&mut self, id: String, st: ProducerState)
        requires
            old(self).wf(),
        ensures
            final(self).wf(),
            final(self)@ == old(self)@.insert(id@, st),
    {
        let ghost old_slots = self.slots@;
        let ghost target = producer_map(old_slots).insert(id@, st);
        match self.find_producer(id.as_str()) {
            Some(i) => {
                self.slots.set(i, ProducerSlot { id, state: st });
                proof {
                    let t = self.slots@;
                    assert forall|a: int, b: int|
                        0 <= a < t.len() && 0 <= b < t.len() && a != b implies #[trigger] t[a].id@
                        != #[trigger] t[b].id@ by {
                        assert(t[a].id@ == old_slots[a].id@);
                        assert(t[b].id@ == old_slots[b].id@);
                    }
                    assert forall|k: Seq<char>| target.contains_key(k) <==> has_producer(t, k) by {
                        if has_producer(old_slots, k) {
                            let q = choose|q: int| 0 <= q < old_slots.len() && #[trigger] old_slots[q].id@ == k;
                            assert(t[q].id@ == k);
                        }
                        if has_producer(t, k) {
                            let q = choose|q: int| 0 <= q < t.len() && #[trigger] t[q].id@ == k;
                            assert(old_slots[q].id@ == k);
                        }
                    }
                    assert forall|j: int| 0 <= j < t.len() implies target[#[trigger] t[j].id@]
                        == t[j].state by {
                        if j != i {
                            lemma_producer_at(old_slots, j);
                        }
                    }
                    lemma_producer_map_ext(old_slots, t, target);
                }
            },
            None => {
                self.slots.push(ProducerSlot { id, state: st });
                proof {
                    let t = self.slots@;
                    let n = old_slots.len() as int;
                    assert forall|a: int, b: int|
                        0 <= a < t.len() && 0 <= b < t.len() && a != b implies #[trigger] t[a].id@
                        != #[trigger] t[b].id@ by {
                        if a < n && b < n {
                            assert(t[a] == old_slots[a] && t[b] == old_slots[b]);
                        } else if a < n {
                            assert(t[a] == old_slots[a]);
                        } else {
                            assert(t[b] == old_slots[b]);
                        }
                    }
                    assert forall|k: Seq<char>| target.contains_key(k) <==> has_producer(t, k) by {
                        if has_producer(old_slots, k) {
                            let q = choose|q: int| 0 <= q < old_slots.len() && #[trigger] old_slots[q].id@ == k;
                            assert(t[q] == old_slots[q]);
                        }
                        if k == id@ {
                            assert(t[n].id@ == k);
                        }
                        if has_producer(t, k) && k != id@ {
                            let q = choose|q: int| 0 <= q < t.len() && #[trigger] t[q].id@ == k;
                            assert(t[q] == old_slots[q]);
                        }
                    }
                    assert forall|j: int| 0 <= j < t.len() implies target[#[trigger] t[j].id@]
                        == t[j].state by {
                        if j < n {
                            assert(t[j] == old_slots[j]);
                            lemma_producer_at(old_slots, j);
                        }
                    }
                    lemma_producer_map_ext(old_slots, t, target);
                }
            },
        }
    }
}

} // verus!
