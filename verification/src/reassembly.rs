//! Per-sender reassembly of fragmented payloads.
//!
//! The store keeps one growing byte buffer per sender address. A data
//! fragment appends to the sender's buffer, creating it if absent; the
//! end-of-stream sentinel removes the buffer and hands it back complete.
//! Callers must treat an empty completed buffer as a valid signal, not an
//! error. Concurrent senders get independent entries.

use vstd::prelude::*;
use crate::frame::{
    is_end_sentinel, lemma_chunks_concat, spec_chunks, spec_chunks_clear_of_sentinel, spec_concat,
    spec_end_sentinel,
};

verus! {

/// The buffer the store holds for `sender`, taking an absent entry as the
/// empty buffer.
pub open spec fn spec_buffer_of(m: Map<Seq<char>, Seq<u8>>, sender: Seq<char>) -> Seq<u8> {
    if m.contains_key(sender) {
        m[sender]
    } else {
        Seq::empty()
    }
}

/// What one received fragment does to the store: the sentinel removes and
/// returns the sender's buffer, any other bytes are appended to it.
pub open spec fn spec_receive_step(
    m: Map<Seq<char>, Seq<u8>>,
    sender: Seq<char>,
    bytes: Seq<u8>,
) -> (Map<Seq<char>, Seq<u8>>, Option<Seq<u8>>) {
    if bytes == spec_end_sentinel() {
        (m.remove(sender), Some(spec_buffer_of(m, sender)))
    } else {
        (m.insert(sender, spec_buffer_of(m, sender) + bytes), None)
    }
}

/// The store after receiving a whole list of fragments from one sender, in
/// order.
pub open spec fn spec_receive_all(
    m: Map<Seq<char>, Seq<u8>>,
    sender: Seq<char>,
    parts: Seq<Seq<u8>>,
) -> Map<Seq<char>, Seq<u8>>
    decreases parts.len(),
{
    if parts.len() == 0 {
        m
    } else {
        spec_receive_all(spec_receive_step(m, sender, parts[0]).0, sender, parts.skip(1))
    }
}

/// The map denoted by an association list, later entries shadowing earlier
/// ones; the store keeps its keys distinct, so nothing is ever shadowed.
pub open spec fn spec_assoc_view(entries: Seq<(String, Vec<u8>)>) -> Map<Seq<char>, Seq<u8>>
    decreases entries.len(),
{
    if entries.len() == 0 {
        Map::empty()
    } else {
        spec_assoc_view(entries.skip(1)).insert(entries[0].0@, entries[0].1@)
    }
}

/// No two entries share a sender address.
pub open spec fn spec_distinct_keys(entries: Seq<(String, Vec<u8>)>) -> bool {
    forall|i: int, j: int|
        0 <= i < j < entries.len() ==> (#[trigger] entries[i]).0@ != (#[trigger] entries[j]).0@
}

proof fn lemma_assoc_contains(entries: Seq<(String, Vec<u8>)>, k: Seq<char>)
    ensures
        spec_assoc_view(entries).contains_key(k) <==> exists|i: int|
            0 <= i < entries.len() && (#[trigger] entries[i]).0@ == k,
    decreases entries.len(),
{
    if entries.len() > 0 {
        lemma_assoc_contains(entries.skip(1), k);
        if spec_assoc_view(entries).contains_key(k) {
            if entries[0].0@ != k {
                let i = choose|i: int|
                    0 <= i < entries.skip(1).len() && (#[trigger] entries.skip(1)[i]).0@ == k;
                assert(entries[i + 1].0@ == k);
            }
        }
        if exists|i: int| 0 <= i < entries.len() && (#[trigger] entries[i]).0@ == k {
            let i = choose|i: int| 0 <= i < entries.len() && (#[trigger] entries[i]).0@ == k;
            if i > 0 {
                assert(entries.skip(1)[i - 1].0@ == k);
            }
        }
    }
}

proof fn lemma_assoc_lookup(entries: Seq<(String, Vec<u8>)>, i: int)
    requires
        spec_distinct_keys(entries),
        0 <= i < entries.len(),
    ensures
        spec_assoc_view(entries).contains_key(entries[i].0@),
        spec_assoc_view(entries)[entries[i].0@] == entries[i].1@,
    decreases entries.len(),
{
    if i == 0 {
        lemma_assoc_contains(entries.skip(1), entries[0].0@);
        if spec_assoc_view(entries.skip(1)).contains_key(entries[0].0@) {
            let j = choose|j: int|
                0 <= j < entries.skip(1).len() && (#[trigger] entries.skip(1)[j]).0@
                    == entries[0].0@;
            assert(entries[j + 1].0@ == entries[0].0@);
        }
    } else {
        assert(spec_distinct_keys(entries.skip(1))) by {
            assert(forall|a: int, b: int|
                0 <= a < b < entries.skip(1).len() ==> (#[trigger] entries.skip(1)[a]).0@ != (
                #[trigger] entries.skip(1)[b]).0@) by {
                assert(forall|a: int, b: int|
                    0 <= a < b < entries.skip(1).len() ==> entries.skip(1)[a] == entries[a + 1]
                        && entries.skip(1)[b] == entries[b + 1]);
            }
        }
        lemma_assoc_lookup(entries.skip(1), i - 1);
        assert(entries.skip(1)[i - 1] == entries[i]);
        assert(entries[i].0@ != entries[0].0@);
    }
}

proof fn lemma_assoc_skip_distinct(entries: Seq<(String, Vec<u8>)>)
    requires
        spec_distinct_keys(entries),
        entries.len() > 0,
    ensures
        spec_distinct_keys(entries.skip(1)),
{
    assert(forall|a: int, b: int|
        0 <= a < b < entries.skip(1).len() ==> entries.skip(1)[a] == entries[a + 1]
            && entries.skip(1)[b] == entries[b + 1]);
}

proof fn lemma_assoc_remove(entries: Seq<(String, Vec<u8>)>, i: int)
    requires
        spec_distinct_keys(entries),
        0 <= i < entries.len(),
    ensures
        spec_distinct_keys(entries.remove(i)),
        spec_assoc_view(entries.remove(i)) =~= spec_assoc_view(entries).remove(entries[i].0@),
    decreases entries.len(),
{
    assert(forall|a: int|
        0 <= a < entries.remove(i).len() ==> #[trigger] entries.remove(i)[a] == (if a < i {
            entries[a]
        } else {
            entries[a + 1]
        }));
    if i == 0 {
        assert(entries.remove(0) =~= entries.skip(1));
        lemma_assoc_skip_distinct(entries);
        lemma_assoc_contains(entries.skip(1), entries[0].0@);
        if spec_assoc_view(entries.skip(1)).contains_key(entries[0].0@) {
            let j = choose|j: int|
                0 <= j < entries.skip(1).len() && (#[trigger] entries.skip(1)[j]).0@
                    == entries[0].0@;
            assert(entries[j + 1].0@ == entries[0].0@);
        }
    } else {
        lemma_assoc_skip_distinct(entries);
        lemma_assoc_remove(entries.skip(1), i - 1);
        assert(entries.remove(i).skip(1) =~= entries.skip(1).remove(i - 1));
        assert(entries.skip(1)[i - 1] == entries[i]);
        assert(entries[0].0@ != entries[i].0@);
    }
}

proof fn lemma_assoc_push(entries: Seq<(String, Vec<u8>)>, pair: (String, Vec<u8>))
    requires
        spec_distinct_keys(entries),
        forall|i: int| 0 <= i < entries.len() ==> (#[trigger] entries[i]).0@ != pair.0@,
    ensures
        spec_distinct_keys(entries.push(pair)),
        spec_assoc_view(entries.push(pair)) =~= spec_assoc_view(entries).insert(pair.0@, pair.1@),
    decreases entries.len(),
{
    assert(forall|a: int|
        0 <= a < entries.len() ==> #[trigger] entries.push(pair)[a] == entries[a]);
    assert(entries.push(pair)[entries.len() as int] == pair);
    if entries.len() == 0 {
        assert(entries.push(pair) =~= seq![pair]);
        assert(entries.push(pair) == seq![pair]);
        assert(seq![pair].skip(1) =~= Seq::<(String, Vec<u8>)>::empty());
        assert(seq![pair].skip(1) == Seq::<(String, Vec<u8>)>::empty());
        assert(seq![pair][0] == pair);
        assert(spec_assoc_view(seq![pair]) == spec_assoc_view(
            Seq::<(String, Vec<u8>)>::empty(),
        ).insert(pair.0@, pair.1@));
        assert(spec_assoc_view(entries.push(pair)) =~= spec_assoc_view(entries).insert(
            pair.0@,
            pair.1@,
        ));
    } else {
        lemma_assoc_skip_distinct(entries);
        assert(forall|i: int|
            0 <= i < entries.skip(1).len() ==> (#[trigger] entries.skip(1)[i]).0@ != pair.0@) by {
            assert(forall|i: int|
                0 <= i < entries.skip(1).len() ==> entries.skip(1)[i] == entries[i + 1]);
        }
        lemma_assoc_push(entries.skip(1), pair);
        assert(entries.push(pair).skip(1) =~= entries.skip(1).push(pair));
        assert(entries.push(pair).skip(1) == entries.skip(1).push(pair));
        assert(spec_assoc_view(entries.push(pair)) == spec_assoc_view(
            entries.skip(1).push(pair),
        ).insert(entries[0].0@, entries[0].1@));
        assert(spec_assoc_view(entries.skip(1).push(pair)) == spec_assoc_view(
            entries.skip(1),
        ).insert(pair.0@, pair.1@));
        assert(entries[0].0@ != pair.0@);
        assert(spec_assoc_view(entries.push(pair)) =~= spec_assoc_view(entries).insert(
            pair.0@,
            pair.1@,
        ));
    }
}

/// Per-sender buffer of partial payload bytes, keyed by sender address.
pub struct ReassemblyStore {
    entries: Vec<(String, Vec<u8>)>,
}

impl View for ReassemblyStore {
    type V = Map<Seq<char>, Seq<u8>>;

    closed spec fn view(&self) -> Map<Seq<char>, Seq<u8>> {
        spec_assoc_view(self.entries@)
    }
}

impl ReassemblyStore {
    /// Exactly one entry per sender while a transfer is in progress.
    pub closed spec fn wf(&self) -> bool {
        spec_distinct_keys(self.entries@)
    }

    /// Creates an empty store.
    pub fn new() -> (store: ReassemblyStore)
        ensures
            store.wf(),
            store@ == Map::<Seq<char>, Seq<u8>>::empty(),
    {
        ReassemblyStore { entries: Vec::new() }
    }

    /// How many senders are mid-transfer.
    pub fn pending_count(&self) -> (n: usize)
        requires
            self.wf(),
        ensures
            n == self@.dom().len(),
    {
        proof {
            lemma_assoc_dom_len(self.entries@);
        }
        self.entries.len()
    }

    fn find(&self, sender: &String) -> (found: Option<usize>)
        ensures
            match found {
                Some(i) => 0 <= i < self.entries@.len() && self.entries@[i as int].0@ == sender@,
                None => forall|i: int|
                    0 <= i < self.entries@.len() ==> (#[trigger] self.entries@[i]).0@ != sender@,
            },
    {
        let mut i: usize = 0;
        while i < self.entries.len()
            invariant
                0 <= i <= self.entries@.len(),
                forall|j: int| 0 <= j < i ==> (#[trigger] self.entries@[j]).0@ != sender@,
            decreases self.entries@.len() - i,
        {
            if self.entries[i].0 == *sender {
                return Some(i);
            }
            i += 1;
        }
        None
    }

    /// Processes one fragment from `sender`. The end sentinel removes and
    /// returns the accumulated buffer — the empty buffer if none existed —
    /// and afterwards the store retains no entry for that sender; any other
    /// bytes are appended to the sender's buffer, creating it if absent.
    pub fn on_fragment(&mut self, sender: &String, bytes: &Vec<u8>) -> (done: Option<Vec<u8>>)
        requires
            old(self).wf(),
        ensures
            final(self).wf(),
            final(self)@ == spec_receive_step(old(self)@, sender@, bytes@).0,
            match done {
                Some(buffer) => Some(buffer@) == spec_receive_step(
                    old(self)@,
                    sender@,
                    bytes@,
                ).1,
                None => spec_receive_step(old(self)@, sender@, bytes@).1 is None,
            },
            bytes@ == spec_end_sentinel() ==> !final(self)@.contains_key(sender@),
    {
        let found = self.find(sender);
        if is_end_sentinel(bytes) {
            match found {
                Some(i) => {
                    proof {
                        lemma_assoc_lookup(self.entries@, i as int);
                        lemma_assoc_remove(self.entries@, i as int);
                    }
                    let pair = self.entries.remove(i);
                    proof {
                        lemma_assoc_contains(self.entries@, sender@);
                        assert(self@ =~= old(self)@.remove(sender@));
                    }
                    Some(pair.1)
                },
                None => {
                    proof {
                        lemma_assoc_contains(self.entries@, sender@);
                        assert(self@ =~= old(self)@.remove(sender@));
                    }
                    Some(Vec::new())
                },
            }
        } else {
            match found {
                Some(i) => {
                    proof {
                        lemma_assoc_lookup(self.entries@, i as int);
                        lemma_assoc_remove(self.entries@, i as int);
                    }
                    let mut pair = self.entries.remove(i);
                    let ghost mid = self.entries@;
                    pair.1.extend_from_slice(bytes.as_slice());
                    proof {
                        assert(forall|j: int|
                            0 <= j < mid.len() ==> (#[trigger] mid[j]).0@ != sender@) by {
                            lemma_assoc_contains(mid, sender@);
                        }
                    }
                    let ghost gpair = pair;
                    self.entries.push(pair);
                    proof {
                        lemma_assoc_push(mid, gpair);
                        assert(self.entries@ == mid.push(gpair));
                        assert(gpair.0@ == sender@);
                        assert(gpair.1@ == spec_buffer_of(old(self)@, sender@) + bytes@);
                        assert(spec_assoc_view(mid) == old(self)@.remove(sender@));
                        assert(self@ == old(self)@.remove(sender@).insert(
                            sender@,
                            spec_buffer_of(old(self)@, sender@) + bytes@,
                        ));
                        assert(self@ =~= old(self)@.insert(
                            sender@,
                            spec_buffer_of(old(self)@, sender@) + bytes@,
                        ));
                    }
                    None
                },
                None => {
                    proof {
                        lemma_assoc_contains(self.entries@, sender@);
                    }
                    let mut buffer: Vec<u8> = Vec::new();
                    buffer.extend_from_slice(bytes.as_slice());
                    let ghost before = self.entries@;
                    self.entries.push((sender.clone(), buffer));
                    proof {
                        let pair = self.entries@[self.entries@.len() - 1];
                        assert(pair.0@ == sender@);
                        lemma_assoc_push(before, pair);
                        assert(self.entries@ == before.push(pair));
                        assert(self@ == old(self)@.insert(sender@, pair.1@));
                        assert(Seq::<u8>::empty() + bytes@ =~= bytes@);
                        assert(pair.1@ == spec_buffer_of(old(self)@, sender@) + bytes@);
                        assert(self@ =~= old(self)@.insert(
                            sender@,
                            spec_buffer_of(old(self)@, sender@) + bytes@,
                        ));
                    }
                    None
                },
            }
        }
    }
}

proof fn lemma_assoc_dom_len(entries: Seq<(String, Vec<u8>)>)
    requires
        spec_distinct_keys(entries),
    ensures
        spec_assoc_view(entries).dom().finite(),
        spec_assoc_view(entries).dom().len() == entries.len(),
    decreases entries.len(),
{
    if entries.len() == 0 {
        assert(spec_assoc_view(entries).dom() =~= Set::<Seq<char>>::empty());
    } else {
        lemma_assoc_skip_distinct(entries);
        lemma_assoc_dom_len(entries.skip(1));
        lemma_assoc_contains(entries.skip(1), entries[0].0@);
        if spec_assoc_view(entries.skip(1)).contains_key(entries[0].0@) {
            let j = choose|j: int|
                0 <= j < entries.skip(1).len() && (#[trigger] entries.skip(1)[j]).0@
                    == entries[0].0@;
            assert(entries[j + 1].0@ == entries[0].0@);
        }
        assert(spec_assoc_view(entries).dom() =~= spec_assoc_view(entries.skip(1)).dom().insert(
            entries[0].0@,
        ));
        vstd::set::axiom_set_insert_finite(spec_assoc_view(entries.skip(1)).dom(), entries[0].0@);
        vstd::set::axiom_set_insert_len(spec_assoc_view(entries.skip(1)).dom(), entries[0].0@);
    }
}

/// Receiving a run of non-sentinel fragments appends their bytes, in order,
/// to the sender's buffer and touches no other sender's entry.
pub proof fn lemma_receive_data_accumulates(
    m: Map<Seq<char>, Seq<u8>>,
    sender: Seq<char>,
    parts: Seq<Seq<u8>>,
)
    requires
        forall|i: int| 0 <= i < parts.len() ==> #[trigger] parts[i] != spec_end_sentinel(),
    ensures
        spec_buffer_of(spec_receive_all(m, sender, parts), sender) =~= spec_buffer_of(m, sender)
            + spec_concat(parts),
        forall|k: Seq<char>|
            k != sender ==> #[trigger] spec_buffer_of(spec_receive_all(m, sender, parts), k)
                == spec_buffer_of(m, k),
    decreases parts.len(),
{
    if parts.len() > 0 {
        let stepped = spec_receive_step(m, sender, parts[0]).0;
        assert(stepped == m.insert(sender, spec_buffer_of(m, sender) + parts[0]));
        lemma_receive_data_accumulates(stepped, sender, parts.skip(1));
        assert(spec_buffer_of(stepped, sender) == spec_buffer_of(m, sender) + parts[0]);
        assert((spec_buffer_of(m, sender) + parts[0]) + spec_concat(parts.skip(1))
            =~= spec_buffer_of(m, sender) + (parts[0] + spec_concat(parts.skip(1))));
        assert(spec_receive_all(m, sender, parts) == spec_receive_all(
            stepped,
            sender,
            parts.skip(1),
        ));
        assert forall|k: Seq<char>| k != sender implies #[trigger] spec_buffer_of(
            spec_receive_all(m, sender, parts),
            k,
        ) == spec_buffer_of(m, k) by {
            assert(spec_buffer_of(spec_receive_all(stepped, sender, parts.skip(1)), k)
                == spec_buffer_of(stepped, k));
            assert(spec_buffer_of(stepped, k) == spec_buffer_of(m, k));
        }
    } else {
        assert(spec_buffer_of(m, sender) + spec_concat(parts) =~= spec_buffer_of(m, sender));
    }
}

/// Fragmentation followed by in-order reassembly is the identity: feeding a
/// payload's chunks and then the end sentinel returns exactly the payload,
/// and leaves no entry behind for the sender. The precondition documents the
/// transport's limitation: no chunk of the payload may itself spell the
/// sentinel marker, or the stream would end early.
pub proof fn lemma_fragment_reassembly_round_trip(
    m: Map<Seq<char>, Seq<u8>>,
    sender: Seq<char>,
    p: Seq<u8>,
    c: int,
)
    requires
        c > 0,
        spec_chunks_clear_of_sentinel(p, c),
        !m.contains_key(sender),
    ensures
        spec_receive_step(spec_receive_all(m, sender, spec_chunks(p, c)), sender, spec_end_sentinel()).1
            == Some(p),
        !spec_receive_step(
            spec_receive_all(m, sender, spec_chunks(p, c)),
            sender,
            spec_end_sentinel(),
        ).0.contains_key(sender),
{
    lemma_receive_data_accumulates(m, sender, spec_chunks(p, c));
    lemma_chunks_concat(p, c);
    let fed = spec_receive_all(m, sender, spec_chunks(p, c));
    assert(spec_buffer_of(fed, sender) =~= p);
}

} // verus!
