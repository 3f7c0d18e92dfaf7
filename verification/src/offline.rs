//! Store-and-forward queue for clients that are offline.
//!
//! When a peer is announced offline, state-change envelopes addressed to it
//! wait here, keyed by the embedded target address, repeats ignored. A
//! later view-count update amends the waiting entry in place. When the
//! target signals it is back online, the entry is handed out for replay
//! and removed, so it is delivered at most once.

use vstd::prelude::*;
use crate::session::{Envelope, EnvelopeView};

verus! {

/// No two waiting entries name the same target address.
pub open spec fn spec_distinct_targets(entries: Seq<EnvelopeView>) -> bool {
    forall|i: int, j: int|
        0 <= i < j < entries.len() ==> (#[trigger] entries[i]).message_text != (
        #[trigger] entries[j]).message_text
}

/// Whether some waiting entry names the target address.
pub open spec fn spec_has_target(entries: Seq<EnvelopeView>, target: Seq<char>) -> bool {
    exists|i: int| 0 <= i < entries.len() && (#[trigger] entries[i]).message_text == target
}

/// Envelopes waiting for offline clients, keyed by the target address in
/// their message text.
pub struct OfflineQueue {
    entries: Vec<Envelope>,
}

impl View for OfflineQueue {
    type V = Seq<EnvelopeView>;

    closed spec fn view(&self) -> Seq<EnvelopeView> {
        self.entries.deep_view()
    }
}

impl OfflineQueue {
    /// One waiting entry per target address.
    pub open spec fn wf(&self) -> bool {
        spec_distinct_targets(self@)
    }

    /// Creates an empty queue.
    pub fn new() -> (q: OfflineQueue)
        ensures
            q.wf(),
            q@ == Seq::<EnvelopeView>::empty(),
    {
        let q = OfflineQueue { entries: Vec::new() };
        proof {
            assert(q@ =~= Seq::<EnvelopeView>::empty());
        }
        q
    }

    /// How many entries are waiting.
    pub fn len(&self) -> (n: usize)
        ensures
            n == self@.len(),
    {
        self.entries.len()
    }

    /// Finds the waiting entry for a target address, if any.
    pub fn find_target(&self, target: &String) -> (found: Option<usize>)
        ensures
            match found {
                Some(i) => 0 <= i < self@.len() && self@[i as int].message_text == target@,
                None => !spec_has_target(self@, target@),
            },
    {
        let mut i: usize = 0;
        let n = self.entries.len();
        while i < n
            invariant
                n == self.entries@.len(),
                0 <= i <= n,
                forall|j: int| 0 <= j < i ==> (#[trigger] self@[j]).message_text != target@,
            decreases n - i,
        {
            proof {
                assert(self@[i as int] == self.entries@[i as int]@);
            }
            if self.entries[i].message_text == *target {
                return Some(i);
            }
            i += 1;
        }
        proof {
            if spec_has_target(self@, target@) {
                let j = choose|j: int|
                    0 <= j < self@.len() && (#[trigger] self@[j]).message_text == target@;
                assert(self@[j].message_text != target@);
            }
        }
        None
    }

    /// Queues an envelope for its offline target, ignoring the repeat if
    /// one is already waiting for that address. Returns whether the
    /// envelope was stored.
    pub fn record(&mut self, env: Envelope) -> (stored: bool)
        requires
            old(self).wf(),
        ensures
            final(self).wf(),
            stored == !spec_has_target(old(self)@, env.message_text@),
            stored ==> final(self)@ == old(self)@.push(env@),
            !stored ==> final(self)@ == old(self)@,
    {
        match self.find_target(&env.message_text) {
            Some(_) => false,
            None => {
                let ghost genv = env;
                self.entries.push(env);
                proof {
                    assert(self@ =~= old(self)@.push(genv@));
                    assert(forall|k: int| 0 <= k < old(self)@.len() ==> self@[k] == old(self)@[k]);
                }
                true
            },
        }
    }

    /// Amends the waiting entry for a target with a new correlation name
    /// and view count, as a later view-count update demands. Returns
    /// whether an entry was waiting.
    pub fn apply_update(
        &mut self,
        target: &String,
        correlation_name: &String,
        views: i32,
    ) -> (matched: bool)
        requires
            old(self).wf(),
        ensures
            final(self).wf(),
            matched == spec_has_target(old(self)@, target@),
            final(self)@.len() == old(self)@.len(),
            forall|i: int|
                0 <= i < old(self)@.len() ==> #[trigger] final(self)@[i] == (if old(self)@[i].message_text == target@ {
                    EnvelopeView {
                        correlation_name: correlation_name@,
                        view_count: views as int,
                        ..old(self)@[i]
                    }
                } else {
                    old(self)@[i]
                }),
    {
        match self.find_target(target) {
            None => {
                proof {
                    assert(forall|i: int|
                        0 <= i < old(self)@.len() ==> (#[trigger] old(self)@[i]).message_text
                            != target@);
                }
                false
            },
            Some(i) => {
                let ghost shallow_before = self.entries@;
                let mut entry = self.entries.remove(i);
                entry.correlation_name = correlation_name.clone();
                entry.view_count = views;
                let ghost gentry = entry;
                self.entries.insert(i, entry);
                proof {
                    assert(gentry@ == (EnvelopeView {
                        correlation_name: correlation_name@,
                        view_count: views as int,
                        ..shallow_before[i as int]@
                    }));
                    assert(self.entries@ =~= shallow_before.update(i as int, gentry));
                    assert(forall|k: int|
                        0 <= k < self@.len() && k != i ==> #[trigger] self@[k] == old(self)@[k]);
                    assert(self@[i as int] == gentry@);
                    assert(forall|k: int|
                        0 <= k < old(self)@.len() && k != i ==> (#[trigger] old(self)@[k]).message_text != target@);
                }
                true
            },
        }
    }

    /// Hands out the waiting entry at `index` for replay and removes it:
    /// afterwards no entry is waiting for that target any more, so a
    /// replayed entry is delivered at most once.
    pub fn take_at(&mut self, index: usize) -> (env: Envelope)
        requires
            old(self).wf(),
            index < old(self)@.len(),
        ensures
            final(self).wf(),
            env@ == old(self)@[index as int],
            final(self)@ == old(self)@.remove(index as int),
            !spec_has_target(final(self)@, env@.message_text),
    {
        let ghost shallow_before = self.entries@;
        let env = self.entries.remove(index);
        proof {
            assert(env@ == old(self)@[index as int]);
            assert(self@ =~= old(self)@.remove(index as int));
            lemma_removed_target_gone(old(self)@, index as int);
        }
        env
    }
}

/// Once the entry at `index` is removed for replay, no entry for its
/// target remains: together with the queue's distinct-target invariant and
/// the leader-only replay rule, an envelope queued for an offline client
/// is delivered at most once, and only after that client's online signal
/// named its address.
pub proof fn lemma_removed_target_gone(entries: Seq<EnvelopeView>, index: int)
    requires
        spec_distinct_targets(entries),
        0 <= index < entries.len(),
    ensures
        !spec_has_target(entries.remove(index), entries[index].message_text),
        spec_distinct_targets(entries.remove(index)),
{
    let removed = entries.remove(index);
    assert(forall|k: int|
        0 <= k < removed.len() ==> #[trigger] removed[k] == (if k < index {
            entries[k]
        } else {
            entries[k + 1]
        }));
    if spec_has_target(removed, entries[index].message_text) {
        let j = choose|j: int|
            0 <= j < removed.len() && (#[trigger] removed[j]).message_text
                == entries[index].message_text;
        if j < index {
            assert(entries[j].message_text != entries[index].message_text);
        } else {
            assert(entries[index].message_text != entries[j + 1].message_text);
        }
    }
}

/// Builds the envelope the leader replays to a client that came back
/// online: the stored entry under the replay identifier.
pub fn make_replay(entry: &Envelope) -> (env: Envelope)
    ensures
        env@ == (EnvelopeView { message_id: crate::session::MSG_ID_REPLAY, ..entry@ }),
{
    let env = Envelope {
        message_text: entry.message_text.clone(),
        message_id: crate::session::MSG_ID_REPLAY,
        payload_fragment: entry.payload_fragment.clone(),
        view_count: entry.view_count,
        correlation_name: entry.correlation_name.clone(),
        is_sample: entry.is_sample,
        sample_index: entry.sample_index,
    };
    proof {
        assert(env.payload_fragment@ =~= entry.payload_fragment@);
        assert(env@ =~= (EnvelopeView { message_id: crate::session::MSG_ID_REPLAY, ..entry@ }));
    }
    env
}

} // verus!
