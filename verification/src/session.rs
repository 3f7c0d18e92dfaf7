//! The client-to-client session protocol, relayed through the elected
//! leader.
//!
//! Every inter-client message is an envelope whose identifier selects a
//! state-machine transition: opening a session, streaming sample previews,
//! selecting and streaming the full asset, remote view-count updates, the
//! renew-views handshake, and the offline/online announcements. The
//! functions here are the decisions of that state machine: they take the
//! current session state and one event and produce the next state and the
//! envelopes to send; performing the sends, the file handling and the
//! human prompts is the caller's business.

use vstd::prelude::*;
use vstd::string::StringExecFns;
use vstd::string::StrSliceExecFns;
use crate::frame::{spec_chunks, FragmentKind, fragment_payload, CHUNK_SIZE};
use crate::text::{
    format_u32, parse_u32, spec_all_digits, spec_decimal, spec_decimal_value, MAX_DECIMAL_DIGITS,
};

verus! {

/// Opens a session: the receiver answers with its sample catalog.
pub const MSG_ID_HELLO: u8 = 1;

/// One sample preview chunk; the last one carries the sentinel view count.
pub const MSG_ID_SAMPLE: u8 = 2;

/// The requester's choice among the previewed samples.
pub const MSG_ID_SELECTION: u8 = 3;

/// One chunk of the full asset, or its end marker.
pub const MSG_ID_ASSET: u8 = 4;

/// A remote view-count update, pushed unconditionally.
pub const MSG_ID_VIEW_UPDATE: u8 = 5;

/// A renew-views request, subject to the remote human's approval.
pub const MSG_ID_RENEW_REQUEST: u8 = 6;

/// The grant-or-deny answer to a renew-views request.
pub const MSG_ID_RENEW_RESPONSE: u8 = 7;

/// A client announcing to its peers that it is going offline.
pub const MSG_ID_GOING_OFFLINE: u8 = 8;

/// A client announcing to its peers that it is back online.
pub const MSG_ID_BACK_ONLINE: u8 = 9;

/// A stored entry replayed by the leader to a client that came back.
pub const MSG_ID_REPLAY: u8 = 10;

/// A client telling the servers that some peer address is offline.
pub const MSG_ID_OFFLINE_RECORD: u8 = 111;

/// A client telling the servers that it is reachable again.
pub const MSG_ID_ONLINE_SIGNAL: u8 = 222;

/// The view-count value that flags the last sample preview of a batch.
pub const SAMPLE_BATCH_SENTINEL_VIEWS: i32 = 1000;

/// The view budget a freshly transferred asset starts with.
pub const INITIAL_VIEW_BUDGET: i32 = 3;

/// The view budget granted by an approved renew request.
pub const RENEWED_VIEW_BUDGET: i32 = 3;

/// One client-to-client session message.
#[derive(Debug)]
pub struct Envelope {
    /// Free text: the end marker, a yes/no answer, an address, or empty.
    pub message_text: String,
    /// Which state-machine transition this envelope selects.
    pub message_id: u8,
    /// One chunk of payload bytes, or empty.
    pub payload_fragment: Vec<u8>,
    /// A view count, where the transition carries one.
    pub view_count: i32,
    /// The correlation name: a short decimal identifier tying the envelope
    /// to a transferred asset, or empty.
    pub correlation_name: String,
    /// Whether the payload chunk belongs to a sample preview.
    pub is_sample: bool,
    /// Which sample of a preview batch the chunk belongs to.
    pub sample_index: u8,
}

/// The mathematical value of an envelope.
#[verifier::ext_equal]
pub struct EnvelopeView {
    /// Free text: the end marker, a yes/no answer, an address, or empty.
    pub message_text: Seq<char>,
    /// Which state-machine transition the envelope selects.
    pub message_id: u8,
    /// One chunk of payload bytes, or empty.
    pub payload_fragment: Seq<u8>,
    /// A view count, where the transition carries one.
    pub view_count: int,
    /// The correlation name tying the envelope to a transferred asset.
    pub correlation_name: Seq<char>,
    /// Whether the payload chunk belongs to a sample preview.
    pub is_sample: bool,
    /// Which sample of a preview batch the chunk belongs to.
    pub sample_index: u8,
}

impl View for Envelope {
    type V = EnvelopeView;

    open spec fn view(&self) -> EnvelopeView {
        EnvelopeView {
            message_text: self.message_text@,
            message_id: self.message_id,
            payload_fragment: self.payload_fragment@,
            view_count: self.view_count as int,
            correlation_name: self.correlation_name@,
            is_sample: self.is_sample,
            sample_index: self.sample_index,
        }
    }
}

impl DeepView for Envelope {
    type V = EnvelopeView;

    open spec fn deep_view(&self) -> EnvelopeView {
        self.view()
    }
}

/// An asset a client has received, with its remaining view budget.
#[derive(Debug)]
pub struct ReceivedAsset {
    /// Where the caller put the received bytes.
    pub handle: String,
    /// How many local views are left.
    pub remaining_views: i32,
    /// The correlation identifier the sender allocated for this transfer.
    pub correlation_id: u32,
    /// The address the asset came from.
    pub origin: String,
}

/// A record of an asset this client sent, for later view-grant updates.
#[derive(Debug)]
pub struct SentRecord {
    /// The correlation identifier allocated for the transfer.
    pub correlation_id: u32,
    /// The address the asset went to.
    pub destination: String,
}

/// The text of the end-of-stream marker carried in an envelope.
pub open spec fn spec_end_marker_text() -> Seq<char> {
    "MINSENDEND"@
}

/// The text of an approval answer.
pub open spec fn spec_yes_text() -> Seq<char> {
    "yes"@
}

/// Builds the end-of-stream marker text.
pub fn end_marker_text() -> (marker: String)
    ensures
        marker@ == spec_end_marker_text(),
{
    String::from_str("MINSENDEND")
}

/// Whether `text` is exactly the end-of-stream marker.
pub fn is_end_marker_text(text: &String) -> (yes: bool)
    ensures
        yes == (text@ == spec_end_marker_text()),
{
    let marker = end_marker_text();
    *text == marker
}

/// The address with everything from the first colon on left out: the host
/// part of an `address:port` pair.
pub open spec fn spec_host_of(addr: Seq<char>) -> Seq<char>
    decreases addr.len(),
{
    if addr.len() == 0 {
        Seq::empty()
    } else if addr[0] == ':' {
        Seq::empty()
    } else {
        seq![addr[0]] + spec_host_of(addr.skip(1))
    }
}

proof fn lemma_host_of_prefix(addr: Seq<char>, k: int)
    requires
        0 <= k <= addr.len(),
        forall|j: int| 0 <= j < k ==> addr[j] != ':',
        k < addr.len() ==> addr[k] == ':',
    ensures
        spec_host_of(addr) == addr.take(k),
    decreases k,
{
    if k == 0 {
        if addr.len() == 0 {
            assert(addr.take(0) =~= Seq::<char>::empty());
            assert(spec_host_of(addr) == addr.take(0));
        } else {
            assert(addr[0] == ':');
            assert(addr.take(0) =~= Seq::<char>::empty());
            assert(spec_host_of(addr) == addr.take(0));
        }
    } else {
        assert(forall|j: int| 0 <= j < addr.skip(1).len() ==> addr.skip(1)[j] == addr[j + 1]);
        lemma_host_of_prefix(addr.skip(1), k - 1);
        assert(addr[0] != ':');
        assert(spec_host_of(addr) == seq![addr[0]] + addr.skip(1).take(k - 1));
        assert(seq![addr[0]] + addr.skip(1).take(k - 1) =~= addr.take(k));
    }
}

/// The host part of an `address:port` pair: everything before the first
/// colon, or the whole text if it has none.
pub fn strip_port(addr: &String) -> (host: String)
    ensures
        host@ == spec_host_of(addr@),
{
    let len = addr.as_str().unicode_len();
    let mut i: usize = 0;
    while i < len
        invariant
            len == addr@.len(),
            0 <= i <= len,
            forall|j: int| 0 <= j < i ==> addr@[j] != ':',
        decreases len - i,
    {
        if addr.as_str().get_char(i) == ':' {
            let host = String::from_str(addr.as_str().substring_char(0, i));
            proof {
                lemma_host_of_prefix(addr@, i as int);
                assert(addr@.subrange(0, i as int) =~= addr@.take(i as int));
            }
            return host;
        }
        i += 1;
    }
    proof {
        lemma_host_of_prefix(addr@, len as int);
        assert(addr@.take(len as int) =~= addr@);
    }
    addr.clone()
}

/// Re-addresses an `address:port` pair to another port: the host part with
/// the given port suffix attached. Port numbers are deployment
/// configuration, handed in by the caller.
pub fn readdress(addr: &String, port_suffix: &str) -> (r: String)
    ensures
        r@ == spec_host_of(addr@) + port_suffix@,
{
    strip_port(addr).concat(port_suffix)
}

/// Builds the session-opening envelope.
pub fn build_hello() -> (env: Envelope)
    ensures
        env.message_id == MSG_ID_HELLO,
        env.message_text@ == "HELLO"@,
        env.payload_fragment@ == Seq::<u8>::empty(),
        env.view_count == 0,
        env.correlation_name@ == Seq::<char>::empty(),
        !env.is_sample,
        env.sample_index == 0,
{
    Envelope {
        message_text: String::from_str("HELLO"),
        message_id: MSG_ID_HELLO,
        payload_fragment: Vec::new(),
        view_count: 0,
        correlation_name: String::new(),
        is_sample: false,
        sample_index: 0,
    }
}

/// Builds the sample-preview batch a client streams back on a session
/// opening: one envelope per catalog sample, the last one carrying the
/// sentinel view count that flags the end of the batch.
pub fn build_sample_batch(samples: &Vec<Vec<u8>>) -> (batch: Vec<Envelope>)
    requires
        1 <= samples@.len() <= 256,
    ensures
        batch@.len() == samples@.len(),
        forall|i: int|
            0 <= i < batch@.len() ==> {
                let env = #[trigger] batch@[i];
                &&& env.message_id == MSG_ID_SAMPLE
                &&& env.message_text@ == Seq::<char>::empty()
                &&& env.payload_fragment@ == samples@[i]@
                &&& env.view_count == (if i == batch@.len() - 1 {
                    SAMPLE_BATCH_SENTINEL_VIEWS as int
                } else {
                    0
                })
                &&& env.correlation_name@ == Seq::<char>::empty()
                &&& env.is_sample
                &&& env.sample_index == i as u8
            },
{
    let mut batch: Vec<Envelope> = Vec::new();
    let mut i: usize = 0;
    let n = samples.len();
    while i < n
        invariant
            n == samples@.len(),
            1 <= n <= 256,
            0 <= i <= n,
            batch@.len() == i,
            forall|k: int|
                0 <= k < i ==> {
                    let env = #[trigger] batch@[k];
                    &&& env.message_id == MSG_ID_SAMPLE
                    &&& env.message_text@ == Seq::<char>::empty()
                    &&& env.payload_fragment@ == samples@[k]@
                    &&& env.view_count == (if k == n - 1 {
                        SAMPLE_BATCH_SENTINEL_VIEWS as int
                    } else {
                        0
                    })
                    &&& env.correlation_name@ == Seq::<char>::empty()
                    &&& env.is_sample
                    &&& env.sample_index == k as u8
                },
        decreases n - i,
    {
        let views: i32 = if i == n - 1 {
            SAMPLE_BATCH_SENTINEL_VIEWS
        } else {
            0
        };
        let env = Envelope {
            message_text: String::new(),
            message_id: MSG_ID_SAMPLE,
            payload_fragment: samples[i].clone(),
            view_count: views,
            correlation_name: String::new(),
            is_sample: true,
            sample_index: i as u8,
        };
        batch.push(env);
        i += 1;
    }
    batch
}

/// Builds the selection envelope that names the chosen sample, counted
/// from one.
pub fn build_selection(choice: u32) -> (env: Envelope)
    ensures
        env.message_id == MSG_ID_SELECTION,
        env.message_text@ == spec_decimal(choice as int),
        env.payload_fragment@ == Seq::<u8>::empty(),
        env.view_count == 0,
        env.correlation_name@ == Seq::<char>::empty(),
        !env.is_sample,
        env.sample_index == 0,
{
    Envelope {
        message_text: format_u32(choice),
        message_id: MSG_ID_SELECTION,
        payload_fragment: Vec::new(),
        view_count: 0,
        correlation_name: String::new(),
        is_sample: false,
        sample_index: 0,
    }
}

/// Builds the renew-views request for an asset, addressed by its
/// correlation identifier.
pub fn build_renew_request(correlation_id: u32) -> (env: Envelope)
    ensures
        env.message_id == MSG_ID_RENEW_REQUEST,
        env.message_text@ == Seq::<char>::empty(),
        env.payload_fragment@ == Seq::<u8>::empty(),
        env.view_count == 0,
        env.correlation_name@ == spec_decimal(correlation_id as int),
        !env.is_sample,
        env.sample_index == 0,
{
    Envelope {
        message_text: String::new(),
        message_id: MSG_ID_RENEW_REQUEST,
        payload_fragment: Vec::new(),
        view_count: 0,
        correlation_name: format_u32(correlation_id),
        is_sample: false,
        sample_index: 0,
    }
}

/// Builds the answer to a renew-views request: a grant carrying the
/// renewed budget, or a denial carrying none.
pub fn build_renew_response(request: &Envelope, approve: bool) -> (env: Envelope)
    ensures
        env.message_id == MSG_ID_RENEW_RESPONSE,
        approve ==> env.message_text@ == spec_yes_text() && env.view_count == RENEWED_VIEW_BUDGET,
        !approve ==> env.message_text@ == "no"@ && env.view_count == 0,
        env.payload_fragment@ == Seq::<u8>::empty(),
        env.correlation_name@ == request.correlation_name@,
        !env.is_sample,
        env.sample_index == 0,
{
    Envelope {
        message_text: if approve {
            String::from_str("yes")
        } else {
            String::from_str("no")
        },
        message_id: MSG_ID_RENEW_RESPONSE,
        payload_fragment: Vec::new(),
        view_count: if approve {
            RENEWED_VIEW_BUDGET
        } else {
            0
        },
        correlation_name: request.correlation_name.clone(),
        is_sample: false,
        sample_index: 0,
    }
}

/// Builds the view-update envelope a sender pushes after changing the view
/// budget of an asset it sent: addressed to the receiver's receive port,
/// carrying the new budget and the asset's correlation identifier.
pub fn build_view_update(receiver_addr: &String, correlation_id: u32, new_views: i32) -> (env:
    Envelope)
    ensures
        env.message_id == MSG_ID_VIEW_UPDATE,
        env.message_text@ == receiver_addr@,
        env.payload_fragment@ == Seq::<u8>::empty(),
        env.view_count == new_views,
        env.correlation_name@ == spec_decimal(correlation_id as int),
        !env.is_sample,
        env.sample_index == 0,
{
    Envelope {
        message_text: receiver_addr.clone(),
        message_id: MSG_ID_VIEW_UPDATE,
        payload_fragment: Vec::new(),
        view_count: new_views,
        correlation_name: format_u32(correlation_id),
        is_sample: false,
        sample_index: 0,
    }
}

/// Builds the going-offline announcement a client sends to its peers.
pub fn build_going_offline() -> (env: Envelope)
    ensures
        env.message_id == MSG_ID_GOING_OFFLINE,
        env.message_text@ == "OFFLINE"@,
        env.payload_fragment@ == Seq::<u8>::empty(),
        env.view_count == 0,
        env.correlation_name@ == Seq::<char>::empty(),
        !env.is_sample,
        env.sample_index == 0,
{
    Envelope {
        message_text: String::from_str("OFFLINE"),
        message_id: MSG_ID_GOING_OFFLINE,
        payload_fragment: Vec::new(),
        view_count: 0,
        correlation_name: String::new(),
        is_sample: false,
        sample_index: 0,
    }
}

/// Builds the back-online announcement a client sends to its peers.
pub fn build_back_online() -> (env: Envelope)
    ensures
        env.message_id == MSG_ID_BACK_ONLINE,
        env.message_text@ == "ONLINE"@,
        env.payload_fragment@ == Seq::<u8>::empty(),
        env.view_count == 0,
        env.correlation_name@ == Seq::<char>::empty(),
        !env.is_sample,
        env.sample_index == 0,
{
    Envelope {
        message_text: String::from_str("ONLINE"),
        message_id: MSG_ID_BACK_ONLINE,
        payload_fragment: Vec::new(),
        view_count: 0,
        correlation_name: String::new(),
        is_sample: false,
        sample_index: 0,
    }
}

/// Builds the record a client sends to the servers when a peer goes
/// offline, naming the peer's receive address so later updates can wait
/// there.
pub fn build_offline_record(peer_receive_addr: &String) -> (env: Envelope)
    ensures
        env.message_id == MSG_ID_OFFLINE_RECORD,
        env.message_text@ == peer_receive_addr@,
        env.payload_fragment@ == Seq::<u8>::empty(),
        env.view_count == 0,
        env.correlation_name@ == Seq::<char>::empty(),
        !env.is_sample,
        env.sample_index == 0,
{
    Envelope {
        message_text: peer_receive_addr.clone(),
        message_id: MSG_ID_OFFLINE_RECORD,
        payload_fragment: Vec::new(),
        view_count: 0,
        correlation_name: String::new(),
        is_sample: false,
        sample_index: 0,
    }
}

/// Builds the signal a client sends to the servers when it is reachable
/// again, naming its own receive address.
pub fn build_online_signal(own_receive_addr: &String) -> (env: Envelope)
    ensures
        env.message_id == MSG_ID_ONLINE_SIGNAL,
        env.message_text@ == own_receive_addr@,
        env.payload_fragment@ == Seq::<u8>::empty(),
        env.view_count == 0,
        env.correlation_name@ == Seq::<char>::empty(),
        !env.is_sample,
        env.sample_index == 0,
{
    Envelope {
        message_text: own_receive_addr.clone(),
        message_id: MSG_ID_ONLINE_SIGNAL,
        payload_fragment: Vec::new(),
        view_count: 0,
        correlation_name: String::new(),
        is_sample: false,
        sample_index: 0,
    }
}

/// The mathematical value of a received asset.
pub struct AssetView {
    /// Where the caller put the received bytes.
    pub handle: Seq<char>,
    /// How many local views are left.
    pub remaining_views: int,
    /// The correlation identifier of the transfer.
    pub correlation_id: int,
    /// The address the asset came from.
    pub origin: Seq<char>,
}

impl View for ReceivedAsset {
    type V = AssetView;

    open spec fn view(&self) -> AssetView {
        AssetView {
            handle: self.handle@,
            remaining_views: self.remaining_views as int,
            correlation_id: self.correlation_id as int,
            origin: self.origin@,
        }
    }
}

impl DeepView for ReceivedAsset {
    type V = AssetView;

    open spec fn deep_view(&self) -> AssetView {
        self.view()
    }
}

/// The mathematical value of a sent-asset record.
pub struct SentView {
    /// The correlation identifier of the transfer.
    pub correlation_id: int,
    /// The address the asset went to.
    pub destination: Seq<char>,
}

impl View for SentRecord {
    type V = SentView;

    open spec fn view(&self) -> SentView {
        SentView {
            correlation_id: self.correlation_id as int,
            destination: self.destination@,
        }
    }
}

impl DeepView for SentRecord {
    type V = SentView;

    open spec fn deep_view(&self) -> SentView {
        self.view()
    }
}

/// One client's session state: what it received and sent, which peers it
/// believes offline, the sample batch being accumulated, the asset chunks
/// being assembled, and the next fresh correlation identifier.
pub struct ClientSession {
    /// Assets received, in order of arrival.
    pub received: Vec<ReceivedAsset>,
    /// Assets sent, in order of transfer.
    pub sent: Vec<SentRecord>,
    /// Peers announced as offline, in order of announcement.
    pub offline_peers: Vec<String>,
    /// Sample previews accumulated from the current batch.
    pub samples: Vec<Vec<u8>>,
    /// Asset chunks assembled so far in the current transfer.
    pub assembly: Vec<u8>,
    /// The next correlation identifier to allocate.
    pub next_correlation: u32,
}

/// The mathematical value of a session state.
#[verifier::ext_equal]
pub struct SessionView {
    /// Assets received, in order of arrival.
    pub received: Seq<AssetView>,
    /// Assets sent, in order of transfer.
    pub sent: Seq<SentView>,
    /// Peers announced as offline, in order of announcement.
    pub offline_peers: Seq<Seq<char>>,
    /// Sample previews accumulated from the current batch.
    pub samples: Seq<Seq<u8>>,
    /// Asset chunks assembled so far in the current transfer.
    pub assembly: Seq<u8>,
    /// The next correlation identifier to allocate.
    pub next_correlation: int,
}

impl View for ClientSession {
    type V = SessionView;

    open spec fn view(&self) -> SessionView {
        SessionView {
            received: self.received.deep_view(),
            sent: self.sent.deep_view(),
            offline_peers: self.offline_peers.deep_view(),
            samples: self.samples.deep_view(),
            assembly: self.assembly@,
            next_correlation: self.next_correlation as int,
        }
    }
}

/// The sample a selection envelope chooses, counted from one, if its text
/// is a well-formed selection for a catalog of `n` samples.
pub open spec fn spec_parsed_selection(text: Seq<char>, n: int) -> Option<int> {
    if 1 <= text.len() <= MAX_DECIMAL_DIGITS && spec_all_digits(text) && 1 <= spec_decimal_value(
        text,
    ) <= n {
        Some(spec_decimal_value(text))
    } else {
        None
    }
}

/// The correlation identifier a correlation name denotes, if it is a
/// well-formed short decimal string.
pub open spec fn spec_parsed_correlation(text: Seq<char>) -> Option<int> {
    if 1 <= text.len() <= MAX_DECIMAL_DIGITS && spec_all_digits(text) {
        Some(spec_decimal_value(text))
    } else {
        None
    }
}

impl ClientSession {
    /// A fresh session: nothing received or sent, no peers offline, and
    /// correlation identifiers starting at one.
    pub fn new() -> (s: ClientSession)
        ensures
            s@ == (SessionView {
                received: Seq::empty(),
                sent: Seq::empty(),
                offline_peers: Seq::empty(),
                samples: Seq::empty(),
                assembly: Seq::empty(),
                next_correlation: 1,
            }),
    {
        let s = ClientSession {
            received: Vec::new(),
            sent: Vec::new(),
            offline_peers: Vec::new(),
            samples: Vec::new(),
            assembly: Vec::new(),
            next_correlation: 1,
        };
        proof {
            assert(s@ =~= (SessionView {
                received: Seq::empty(),
                sent: Seq::empty(),
                offline_peers: Seq::empty(),
                samples: Seq::empty(),
                assembly: Seq::empty(),
                next_correlation: 1,
            }));
        }
        s
    }

    /// Accumulates one sample-preview chunk. On the chunk flagged with the
    /// sentinel view count the whole batch is handed back for the user to
    /// pick from, and the accumulator is cleared.
    pub fn on_sample_chunk(&mut self, env: &Envelope) -> (complete: Option<Vec<Vec<u8>>>)
        ensures
            env.view_count != SAMPLE_BATCH_SENTINEL_VIEWS ==> complete is None && final(self)@
                == (SessionView {
                samples: old(self)@.samples.push(env.payload_fragment@),
                ..old(self)@
            }),
            env.view_count == SAMPLE_BATCH_SENTINEL_VIEWS ==> final(self)@ == (SessionView {
                samples: Seq::empty(),
                ..old(self)@
            }) && (complete matches Some(batch) && batch.deep_view() == old(self)@.samples.push(
                env.payload_fragment@,
            )),
    {
        let ghost before = self.samples.deep_view();
        let frag = env.payload_fragment.clone();
        proof {
            assert(frag@ =~= env.payload_fragment@);
            assert(frag.deep_view() =~= env.payload_fragment@);
        }
        let ghost gfrag = frag;
        self.samples.push(frag);
        proof {
            assert(self.samples@ =~= old(self).samples@.push(gfrag));
            assert(self.samples.deep_view() =~= before.push(env.payload_fragment@));
        }
        if env.view_count == SAMPLE_BATCH_SENTINEL_VIEWS {
            let mut batch: Vec<Vec<u8>> = Vec::new();
            core::mem::swap(&mut batch, &mut self.samples);
            proof {
                assert(self.samples.deep_view() =~= Seq::<Seq<u8>>::empty());
                assert(final(self)@ =~= (SessionView { samples: Seq::empty(), ..old(self)@ }));
            }
            Some(batch)
        } else {
            proof {
                assert(final(self)@ =~= (SessionView {
                    samples: old(self)@.samples.push(env.payload_fragment@),
                    ..old(self)@
                }));
            }
            None
        }
    }

    /// Serves a selection: streams the chosen catalog asset in fixed-size
    /// chunks, ends the stream with the marker envelope carrying a freshly
    /// allocated correlation name and the initial view budget, and records
    /// the transfer. A selection that does not parse or is out of range is
    /// refused with nothing sent and nothing changed.
    pub fn serve_selection(
        &mut self,
        request: &Envelope,
        catalog: &Vec<Vec<u8>>,
        dest: &String,
    ) -> (out: Option<Vec<Envelope>>)
        requires
            old(self).next_correlation < u32::MAX,
        ensures
            spec_parsed_selection(request.message_text@, catalog@.len() as int) is None ==> out
                is None && final(self)@ == old(self)@,
            match spec_parsed_selection(request.message_text@, catalog@.len() as int) {
                Some(choice) => {
                    let asset = catalog@[choice - 1]@;
                    let chunks = spec_chunks(asset, CHUNK_SIZE as int);
                    &&& out matches Some(stream)
                    &&& stream@.len() == chunks.len() + 1
                    &&& forall|i: int|
                        0 <= i < stream@.len() - 1 ==> {
                            let env = #[trigger] stream@[i];
                            &&& env.message_id == MSG_ID_ASSET
                            &&& env.message_text@ == Seq::<char>::empty()
                            &&& env.payload_fragment@ == chunks[i]
                            &&& env.view_count == 0
                            &&& env.correlation_name@ == Seq::<char>::empty()
                            &&& !env.is_sample
                            &&& env.sample_index == 0
                        }
                    &&& {
                        let last = stream@[stream@.len() - 1];
                        &&& last.message_id == MSG_ID_ASSET
                        &&& last.message_text@ == spec_end_marker_text()
                        &&& last.payload_fragment@ == Seq::<u8>::empty()
                        &&& last.view_count == INITIAL_VIEW_BUDGET
                        &&& last.correlation_name@ == spec_decimal(
                            old(self)@.next_correlation,
                        )
                        &&& !last.is_sample
                        &&& last.sample_index == 0
                    }
                    &&& final(self)@ == (SessionView {
                        sent: old(self)@.sent.push(
                            SentView {
                                correlation_id: old(self)@.next_correlation,
                                destination: dest@,
                            },
                        ),
                        next_correlation: old(self)@.next_correlation + 1,
                        ..old(self)@
                    })
                },
                None => true,
            },
    {
        let choice = match parse_u32(&request.message_text) {
            Some(v) => v,
            None => {
                proof {
                    assert(final(self)@ =~= old(self)@);
                }
                return None;
            },
        };
        if choice == 0 || choice as usize > catalog.len() {
            proof {
                assert(final(self)@ =~= old(self)@);
            }
            return None;
        }
        let asset = &catalog[choice as usize - 1];
        let frags = fragment_payload(asset, CHUNK_SIZE, FragmentKind::Data);
        let mut stream: Vec<Envelope> = Vec::new();
        let mut i: usize = 0;
        let n = frags.len() - 1;
        while i < n
            invariant
                n == frags@.len() - 1,
                0 <= i <= n,
                stream@.len() == i,
                forall|k: int|
                    0 <= k < n ==> (#[trigger] frags@[k]).bytes@ == spec_chunks(
                        catalog@[choice - 1]@,
                        CHUNK_SIZE as int,
                    )[k],
                forall|k: int|
                    0 <= k < i ==> {
                        let env = #[trigger] stream@[k];
                        &&& env.message_id == MSG_ID_ASSET
                        &&& env.message_text@ == Seq::<char>::empty()
                        &&& env.payload_fragment@ == spec_chunks(
                            catalog@[choice - 1]@,
                            CHUNK_SIZE as int,
                        )[k]
                        &&& env.view_count == 0
                        &&& env.correlation_name@ == Seq::<char>::empty()
                        &&& !env.is_sample
                        &&& env.sample_index == 0
                    },
            decreases n - i,
        {
            let env = Envelope {
                message_text: String::new(),
                message_id: MSG_ID_ASSET,
                payload_fragment: frags[i].bytes.clone(),
                view_count: 0,
                correlation_name: String::new(),
                is_sample: false,
                sample_index: 0,
            };
            stream.push(env);
            i += 1;
        }
        let correlation = self.next_correlation;
        let last = Envelope {
            message_text: end_marker_text(),
            message_id: MSG_ID_ASSET,
            payload_fragment: Vec::new(),
            view_count: INITIAL_VIEW_BUDGET,
            correlation_name: format_u32(correlation),
            is_sample: false,
            sample_index: 0,
        };
        let ghost stream_before = stream@;
        stream.push(last);
        proof {
            assert(forall|k: int| 0 <= k < stream_before.len() ==> stream@[k] == stream_before[k]);
        }
        let ghost sent_before = self.sent.deep_view();
        self.sent.push(SentRecord { correlation_id: correlation, destination: dest.clone() });
        self.next_correlation = correlation + 1;
        proof {
            assert(self.sent.deep_view() =~= sent_before.push(
                SentView { correlation_id: correlation as int, destination: dest@ },
            ));
            assert(final(self)@ =~= (SessionView {
                sent: old(self)@.sent.push(
                    SentView {
                        correlation_id: old(self)@.next_correlation,
                        destination: dest@,
                    },
                ),
                next_correlation: old(self)@.next_correlation + 1,
                ..old(self)@
            }));
        }
        Some(stream)
    }

    /// Accumulates one asset envelope. Ordinary chunks grow the assembly
    /// buffer. The end-marker envelope completes the transfer: the
    /// assembled bytes are handed back for the caller to store under
    /// `handle`, and the asset is recorded with the budget and correlation
    /// name the marker carries. A marker whose correlation name does not
    /// parse is a protocol error, recovered by doing nothing.
    pub fn on_asset_envelope(&mut self, env: &Envelope, origin: &String, handle: String) -> (done:
        Option<Vec<u8>>)
        ensures
            env.message_text@ != spec_end_marker_text() ==> done is None && final(self)@
                == (SessionView {
                assembly: old(self)@.assembly + env.payload_fragment@,
                ..old(self)@
            }),
            env.message_text@ == spec_end_marker_text() && spec_parsed_correlation(
                env.correlation_name@,
            ) is None ==> done is None && final(self)@ == old(self)@,
            env.message_text@ == spec_end_marker_text() ==> (spec_parsed_correlation(
                env.correlation_name@,
            ) matches Some(c) ==> (done matches Some(payload) && payload@ == old(self)@.assembly
                + env.payload_fragment@ && final(self)@ == (SessionView {
                received: old(self)@.received.push(
                    AssetView {
                        handle: handle@,
                        remaining_views: env.view_count as int,
                        correlation_id: c,
                        origin: origin@,
                    },
                ),
                assembly: Seq::empty(),
                ..old(self)@
            }))),
    {
        if !is_end_marker_text(&env.message_text) {
            self.assembly.extend_from_slice(env.payload_fragment.as_slice());
            proof {
                assert(final(self)@ =~= (SessionView {
                    assembly: old(self)@.assembly + env.payload_fragment@,
                    ..old(self)@
                }));
            }
            return None;
        }
        let correlation = match parse_u32(&env.correlation_name) {
            Some(v) => v,
            None => {
                proof {
                    assert(final(self)@ =~= old(self)@);
                }
                return None;
            },
        };
        let mut payload: Vec<u8> = Vec::new();
        core::mem::swap(&mut payload, &mut self.assembly);
        payload.extend_from_slice(env.payload_fragment.as_slice());
        let ghost received_before = self.received.deep_view();
        self.received.push(
            ReceivedAsset {
                handle,
                remaining_views: env.view_count,
                correlation_id: correlation,
                origin: origin.clone(),
            },
        );
        proof {
            let ghost pushed = self.received@[self.received@.len() - 1];
            assert(self.received.deep_view() =~= received_before.push(pushed@));
            assert(final(self)@ =~= (SessionView {
                received: old(self)@.received.push(pushed@),
                assembly: Seq::empty(),
                ..old(self)@
            }));
        }
        Some(payload)
    }

    /// Views an asset locally: if its budget is positive, one view is
    /// spent and the handle to display is handed back; an exhausted budget
    /// refuses the view and changes nothing. The budget never goes
    /// negative from local viewing.
    pub fn view_asset(&mut self, index: usize) -> (granted: Option<String>)
        requires
            index < old(self).received@.len(),
        ensures
            old(self)@.received[index as int].remaining_views > 0 ==> (granted matches Some(h)
                && h@ == old(self)@.received[index as int].handle && final(self)@ == (SessionView {
                received: old(self)@.received.update(
                    index as int,
                    AssetView {
                        remaining_views: old(self)@.received[index as int].remaining_views - 1,
                        ..old(self)@.received[index as int]
                    },
                ),
                ..old(self)@
            })),
            old(self)@.received[index as int].remaining_views <= 0 ==> granted is None
                && final(self)@ == old(self)@,
            old(self)@.received[index as int].remaining_views >= 0 ==> final(self)@.received[
                index as int].remaining_views >= 0,
    {
        proof {
            assert(self.received.deep_view()[index as int] == self.received@[index as int]@);
        }
        if self.received[index].remaining_views <= 0 {
            proof {
                assert(final(self)@ =~= old(self)@);
            }
            return None;
        }
        let mut asset = self.received.remove(index);
        let handle = asset.handle.clone();
        asset.remaining_views = asset.remaining_views - 1;
        self.received.insert(index, asset);
        proof {
            assert(self.received@ =~= old(self).received@.update(
                index as int,
                self.received@[index as int],
            ));
            assert(self.received.deep_view() =~= old(self)@.received.update(
                index as int,
                AssetView {
                    remaining_views: old(self)@.received[index as int].remaining_views - 1,
                    ..old(self)@.received[index as int]
                },
            ));
            assert(final(self)@ =~= (SessionView {
                received: old(self)@.received.update(
                    index as int,
                    AssetView {
                        remaining_views: old(self)@.received[index as int].remaining_views - 1,
                        ..old(self)@.received[index as int]
                    },
                ),
                ..old(self)@
            }));
        }
        Some(handle)
    }

    /// Applies a view-count grant to every received asset the correlation
    /// name matches. Returns whether anything matched; a name that does
    /// not parse is a protocol error, recovered by doing nothing.
    pub fn apply_view_grant(&mut self, correlation_name: &String, views: i32) -> (matched: bool)
        ensures
            spec_parsed_correlation(correlation_name@) is None ==> !matched
                && final(self)@ == old(self)@,
            spec_parsed_correlation(correlation_name@) matches Some(c) ==> {
                &&& matched == exists|i: int|
                    0 <= i < old(self)@.received.len() && (#[trigger] old(self)@.received[i]).correlation_id == c
                &&& final(self)@.received.len() == old(self)@.received.len()
                &&& forall|i: int|
                    0 <= i < old(self)@.received.len() ==> #[trigger] final(self)@.received[i] == (
                    if old(self)@.received[i].correlation_id == c {
                        AssetView { remaining_views: views as int, ..old(self)@.received[i] }
                    } else {
                        old(self)@.received[i]
                    })
                &&& final(self)@ == (SessionView { received: final(self)@.received, ..old(self)@ })
            },
    {
        let correlation = match parse_u32(correlation_name) {
            Some(v) => v,
            None => {
                proof {
                    assert(final(self)@ =~= old(self)@);
                }
                return false;
            },
        };
        let mut matched = false;
        let mut i: usize = 0;
        let n = self.received.len();
        while i < n
            invariant
                n == self.received@.len(),
                n == old(self).received@.len(),
                0 <= i <= n,
                self.received.deep_view().len() == n,
                matched == exists|k: int|
                    0 <= k < i && (#[trigger] old(self)@.received[k]).correlation_id
                        == correlation as int,
                forall|k: int|
                    0 <= k < n ==> #[trigger] self.received.deep_view()[k] == (if k < i && old(self)@.received[k].correlation_id == correlation as int {
                        AssetView { remaining_views: views as int, ..old(self)@.received[k] }
                    } else {
                        old(self)@.received[k]
                    }),
                self.sent@ == old(self).sent@,
                self.offline_peers@ == old(self).offline_peers@,
                self.samples@ == old(self).samples@,
                self.assembly@ == old(self).assembly@,
                self.next_correlation == old(self).next_correlation,
            decreases n - i,
        {
            proof {
                assert(self.received.deep_view()[i as int] == self.received@[i as int]@);
            }
            if self.received[i].correlation_id == correlation {
                let ghost shallow_before = self.received@;
                let ghost received_before = self.received.deep_view();
                let mut asset = self.received.remove(i);
                asset.remaining_views = views;
                let ghost gasset = asset;
                self.received.insert(i, asset);
                matched = true;
                proof {
                    assert(gasset@ == (AssetView {
                        remaining_views: views as int,
                        ..shallow_before[i as int]@
                    }));
                    assert(self.received@ =~= shallow_before.update(i as int, gasset));
                    assert(forall|k: int|
                        0 <= k < n && k != i ==> self.received@[k] == shallow_before[k]);
                    assert(forall|k: int|
                        0 <= k < n && k != i ==> #[trigger] self.received.deep_view()[k]
                            == received_before[k]);
                    assert(self.received.deep_view()[i as int] == gasset@);
                    assert(received_before[i as int] == shallow_before[i as int]@);
                    assert(received_before[i as int] == old(self)@.received[i as int]);
                    assert(self.received.deep_view()[i as int] == (AssetView {
                        remaining_views: views as int,
                        ..old(self)@.received[i as int]
                    }));
                }
            }
            i += 1;
        }
        proof {
            assert(final(self)@ == (SessionView { received: final(self)@.received, ..old(self)@ }))
                by {
                assert(final(self)@ =~= (SessionView {
                    received: final(self)@.received,
                    ..old(self)@
                }));
            }
        }
        matched
    }

    /// Applies the answer to a renew-views request: a grant sets the
    /// matching asset's budget to the granted count; a declined request
    /// leaves every budget unchanged.
    pub fn on_renew_response(&mut self, env: &Envelope) -> (matched: bool)
        ensures
            env.message_text@ != spec_yes_text() ==> !matched && final(self)@ == old(self)@,
            env.message_text@ == spec_yes_text() ==> {
                &&& spec_parsed_correlation(env.correlation_name@) is None ==> !matched
                    && final(self)@ == old(self)@
                &&& spec_parsed_correlation(env.correlation_name@) matches Some(c) ==> {
                    &&& matched == exists|i: int|
                        0 <= i < old(self)@.received.len() && (#[trigger] old(self)@.received[i]).correlation_id == c
                    &&& final(self)@.received.len() == old(self)@.received.len()
                    &&& forall|i: int|
                        0 <= i < old(self)@.received.len() ==> #[trigger] final(self)@.received[i]
                            == (if old(self)@.received[i].correlation_id == c {
                            AssetView {
                                remaining_views: env.view_count as int,
                                ..old(self)@.received[i]
                            }
                        } else {
                            old(self)@.received[i]
                        })
                    &&& final(self)@ == (SessionView {
                        received: final(self)@.received,
                        ..old(self)@
                    })
                }
            },
    {
        let yes = String::from_str("yes");
        proof {
            reveal_strlit("yes");
        }
        if env.message_text == yes {
            self.apply_view_grant(&env.correlation_name, env.view_count)
        } else {
            proof {
                assert(final(self)@ =~= old(self)@);
            }
            false
        }
    }

    /// Notes that a peer announced it is going offline.
    pub fn on_going_offline(&mut self, peer: &String)
        ensures
            final(self)@ == (SessionView {
                offline_peers: old(self)@.offline_peers.push(peer@),
                ..old(self)@
            }),
    {
        let ghost before = self.offline_peers.deep_view();
        self.offline_peers.push(peer.clone());
        proof {
            assert(self.offline_peers.deep_view() =~= before.push(peer@));
            assert(final(self)@ =~= (SessionView {
                offline_peers: old(self)@.offline_peers.push(peer@),
                ..old(self)@
            }));
        }
    }

    /// Notes that a peer announced it is back online: its first offline
    /// record is dropped. Returns whether one was found.
    pub fn on_back_online(&mut self, peer: &String) -> (found: bool)
        ensures
            found == old(self)@.offline_peers.contains(peer@),
            !found ==> final(self)@ == old(self)@,
            found ==> exists|k: int|
                {
                    &&& 0 <= k < old(self)@.offline_peers.len()
                    &&& old(self)@.offline_peers[k] == peer@
                    &&& (forall|j: int| 0 <= j < k ==> old(self)@.offline_peers[j] != peer@)
                    &&& final(self)@ == (SessionView {
                        offline_peers: old(self)@.offline_peers.remove(k),
                        ..old(self)@
                    })
                },
    {
        let mut i: usize = 0;
        let n = self.offline_peers.len();
        while i < n
            invariant
                self == old(self),
                n == self.offline_peers@.len(),
                0 <= i <= n,
                forall|j: int| 0 <= j < i ==> old(self)@.offline_peers[j] != peer@,
            decreases n - i,
        {
            proof {
                assert(old(self)@.offline_peers[i as int] == self.offline_peers@[i as int]@);
            }
            if self.offline_peers[i] == *peer {
                let ghost shallow_before = self.offline_peers@;
                self.offline_peers.remove(i);
                proof {
                    assert(old(self)@.offline_peers[i as int] == peer@);
                    assert(old(self)@.offline_peers.contains(peer@));
                    assert(self.offline_peers@ =~= shallow_before.remove(i as int));
                    assert(self.offline_peers.deep_view() =~= old(self)@.offline_peers.remove(
                        i as int,
                    ));
                    assert(final(self)@ =~= (SessionView {
                        offline_peers: old(self)@.offline_peers.remove(i as int),
                        ..old(self)@
                    }));
                }
                return true;
            }
            i += 1;
        }
        proof {
            if old(self)@.offline_peers.contains(peer@) {
                let j = choose|j: int|
                    0 <= j < old(self)@.offline_peers.len() && old(self)@.offline_peers[j]
                        == peer@;
                assert(old(self)@.offline_peers[j] != peer@);
            }
            assert(final(self)@ =~= old(self)@);
        }
        false
    }

    /// Whether a view-count update for `dest` must travel through the
    /// servers: only when that peer has announced itself offline.
    pub fn route_via_servers(&self, dest: &String) -> (via_servers: bool)
        ensures
            via_servers == self@.offline_peers.contains(dest@),
    {
        let mut i: usize = 0;
        let n = self.offline_peers.len();
        while i < n
            invariant
                n == self.offline_peers@.len(),
                0 <= i <= n,
                forall|j: int| 0 <= j < i ==> self.offline_peers.deep_view()[j] != dest@,
            decreases n - i,
        {
            proof {
                assert(self.offline_peers.deep_view()[i as int] == self.offline_peers@[i as int]@);
            }
            if self.offline_peers[i] == *dest {
                return true;
            }
            i += 1;
        }
        proof {
            if self@.offline_peers.contains(dest@) {
                let j = choose|j: int|
                    0 <= j < self@.offline_peers.len() && self@.offline_peers[j] == dest@;
                assert(self@.offline_peers[j] != dest@);
            }
        }
        false
    }
}


} // verus!
