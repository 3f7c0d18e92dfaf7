//! The server side of the relay: bookkeeping on every datagram, and the
//! leader-only answers.
//!
//! Every server, leader or not, registers the sender of each datagram in
//! its directory, keeps the reassembly store current and maintains the
//! offline queue. Only the server that holds leadership for the current
//! round emits the outward answer — the directory text, the relayed
//! payload, the replayed offline entry — and leadership is re-checked on
//! every outgoing step, never cached across rounds.

use vstd::prelude::*;
use crate::directory::{spec_excluding, spec_join_trailing, Directory};
use crate::frame::{spec_end_sentinel, Fragment, FragmentKind};
use crate::offline::{make_replay, spec_has_target, OfflineQueue};
use crate::reassembly::{spec_receive_step, ReassemblyStore};
use crate::session::{
    readdress, spec_host_of, Envelope, EnvelopeView, MSG_ID_OFFLINE_RECORD, MSG_ID_ONLINE_SIGNAL,
    MSG_ID_REPLAY, MSG_ID_VIEW_UPDATE,
};

verus! {

/// One parsed datagram: a session envelope, or a transport fragment.
pub enum InboundMessage {
    /// A client-to-client session message to be relayed or recorded.
    Session(Envelope),
    /// A payload chunk, an end sentinel, or a directory query.
    Transport(Fragment),
}

/// What the receiver hands the round driver after one datagram.
pub enum ReceiverSignal {
    /// Nothing for the round driver to do.
    Quiet,
    /// A sender's payload is fully reassembled.
    PayloadComplete(String, Vec<u8>),
    /// A client asked for the directory.
    DirectoryRequest(String),
    /// A client came back online and the entry at this queue index awaits
    /// replay.
    ReplayReady(usize),
}

/// The state one server owns: its peer directory, its reassembly store and
/// its offline queue.
pub struct ServerState {
    /// Client addresses observed so far.
    pub directory: Directory,
    /// Partial payloads, one buffer per sender.
    pub store: ReassemblyStore,
    /// Envelopes waiting for offline clients.
    pub offline: OfflineQueue,
}

impl ServerState {
    /// All three structures are well-formed.
    pub open spec fn wf(&self) -> bool {
        self.directory.wf() && self.store.wf() && self.offline.wf()
    }

    /// A fresh server state with nothing observed yet.
    pub fn new() -> (s: ServerState)
        ensures
            s.wf(),
            s.directory@ == Seq::<Seq<char>>::empty(),
            s.store@ == Map::<Seq<char>, Seq<u8>>::empty(),
            s.offline@ == Seq::<EnvelopeView>::empty(),
    {
        ServerState { directory: Directory::new(), store: ReassemblyStore::new(), offline: OfflineQueue::new() }
    }

    /// Handles one datagram from a client: registers the sender in the
    /// directory, updates the reassembly store or the offline queue, and
    /// tells the round driver what, if anything, is ready. An envelope
    /// with an unexpected identifier is a protocol error, recovered by
    /// doing nothing.
    pub fn receiver_step(
        &mut self,
        src_ip: &String,
        src_addr: &String,
        msg: InboundMessage,
        online_port_suffix: &str,
    ) -> (signal: ReceiverSignal)
        requires
            old(self).wf(),
        ensures
            final(self).wf(),
            final(self).directory@ == if old(self).directory@.contains(src_ip@) {
                old(self).directory@
            } else {
                old(self).directory@.push(src_ip@)
            },
            match msg {
                InboundMessage::Session(env) => {
                    &&& final(self).store@ == old(self).store@
                    &&& (env.message_id == MSG_ID_OFFLINE_RECORD ==> {
                        &&& (!spec_has_target(old(self).offline@, env.message_text@) ==> final(self).offline@ == old(self).offline@.push(env@))
                        &&& (spec_has_target(old(self).offline@, env.message_text@) ==> final(self).offline@ == old(self).offline@)
                        &&& signal is Quiet
                    })
                    &&& (env.message_id == MSG_ID_VIEW_UPDATE ==> {
                        &&& final(self).offline@.len() == old(self).offline@.len()
                        &&& forall|i: int|
                            0 <= i < old(self).offline@.len() ==> #[trigger] final(self).offline@[i] == (if old(self).offline@[i].message_text
                                == env.message_text@ {
                                EnvelopeView {
                                    correlation_name: env.correlation_name@,
                                    view_count: env.view_count as int,
                                    ..old(self).offline@[i]
                                }
                            } else {
                                old(self).offline@[i]
                            })
                        &&& signal is Quiet
                    })
                    &&& (env.message_id == MSG_ID_ONLINE_SIGNAL ==> {
                        let target = spec_host_of(src_addr@) + online_port_suffix@;
                        &&& (signal matches ReceiverSignal::ReplayReady(i) ==> 0 <= i < old(self).offline@.len() && old(self).offline@[i as int].message_text == target)
                        &&& (signal is Quiet ==> !spec_has_target(old(self).offline@, target))
                        &&& (signal is ReplayReady || signal is Quiet)
                        &&& final(self).offline@ == old(self).offline@
                    })
                    &&& (env.message_id != MSG_ID_OFFLINE_RECORD && env.message_id
                        != MSG_ID_VIEW_UPDATE && env.message_id != MSG_ID_ONLINE_SIGNAL ==> final(self).offline@ == old(self).offline@ && signal is Quiet)
                },
                InboundMessage::Transport(frag) => {
                    &&& final(self).offline@ == old(self).offline@
                    &&& (frag.kind == FragmentKind::Directory ==> {
                        &&& final(self).store@ == old(self).store@
                        &&& signal matches ReceiverSignal::DirectoryRequest(who) && who@
                            == src_addr@
                    })
                    &&& (frag.kind == FragmentKind::Data ==> {
                        &&& final(self).store@ == spec_receive_step(
                            old(self).store@,
                            src_addr@,
                            frag.bytes@,
                        ).0
                        &&& (frag.bytes@ == spec_end_sentinel() ==> (signal matches
                            ReceiverSignal::PayloadComplete(who, payload) && who@ == src_addr@
                            && Some(payload@) == spec_receive_step(
                            old(self).store@,
                            src_addr@,
                            frag.bytes@,
                        ).1))
                        &&& (frag.bytes@ != spec_end_sentinel() ==> signal is Quiet)
                    })
                },
            },
    {
        self.directory.register(src_ip);
        match msg {
            InboundMessage::Session(env) => {
                if env.message_id == MSG_ID_OFFLINE_RECORD {
                    self.offline.record(env);
                    ReceiverSignal::Quiet
                } else if env.message_id == MSG_ID_VIEW_UPDATE {
                    self.offline.apply_update(
                        &env.message_text,
                        &env.correlation_name,
                        env.view_count,
                    );
                    ReceiverSignal::Quiet
                } else if env.message_id == MSG_ID_ONLINE_SIGNAL {
                    let target = readdress(src_addr, online_port_suffix);
                    match self.offline.find_target(&target) {
                        Some(i) => ReceiverSignal::ReplayReady(i),
                        None => ReceiverSignal::Quiet,
                    }
                } else {
                    ReceiverSignal::Quiet
                }
            },
            InboundMessage::Transport(frag) => {
                match frag.kind {
                    FragmentKind::Directory => ReceiverSignal::DirectoryRequest(src_addr.clone()),
                    FragmentKind::Data => {
                        match self.store.on_fragment(src_addr, &frag.bytes) {
                            Some(payload) => ReceiverSignal::PayloadComplete(
                                src_addr.clone(),
                                payload,
                            ),
                            None => ReceiverSignal::Quiet,
                        }
                    },
                }
            },
        }
    }

    /// Answers a directory query: only the current leader answers, with
    /// every known address but the requester's own, one per line; a
    /// non-leader stays silent.
    pub fn serve_directory(&self, requester: &String, is_leader: bool) -> (answer: Option<String>)
        ensures
            is_leader ==> (answer matches Some(text) && text@ == spec_join_trailing(
                spec_excluding(self.directory@, requester@),
            )),
            !is_leader ==> answer is None,
    {
        if is_leader {
            Some(self.directory.snapshot_excluding(requester))
        } else {
            None
        }
    }

    /// Replays the offline entry at `index` to its target: only the
    /// current leader sends and removes the entry, so it is delivered at
    /// most once; on a non-leader the entry stays queued for a later
    /// round.
    pub fn serve_replay(&mut self, index: usize, is_leader: bool) -> (out: Option<(String, Envelope)>)
        requires
            old(self).wf(),
            index < old(self).offline@.len(),
        ensures
            final(self).wf(),
            final(self).directory@ == old(self).directory@,
            final(self).store@ == old(self).store@,
            is_leader ==> (out matches Some((dest, env)) && {
                &&& dest@ == old(self).offline@[index as int].message_text
                &&& env@ == (EnvelopeView {
                    message_id: MSG_ID_REPLAY,
                    ..old(self).offline@[index as int]
                })
                &&& final(self).offline@ == old(self).offline@.remove(index as int)
                &&& !spec_has_target(final(self).offline@, dest@)
            }),
            !is_leader ==> out is None && final(self).offline@ == old(self).offline@,
    {
        if !is_leader {
            return None;
        }
        let entry = self.offline.take_at(index);
        let env = make_replay(&entry);
        let dest = entry.message_text;
        proof {
            assert(dest@ == old(self).offline@[index as int].message_text);
        }
        Some((dest, env))
    }
}

/// Whether this server must emit the outward answer this round: exactly
/// when it holds leadership now. Leadership is asked anew on every
/// outgoing step; a transfer spanning rounds may have its forwarding leg
/// served by a different leader than the one that accepted it.
pub fn holds_leadership(server_num: u16, leader: u16) -> (forward: bool)
    ensures
        forward == (server_num == leader),
{
    server_num == leader
}

} // verus!
