use ringrelay::codec::{prepare_relay_payload, recover_relay_payload, FILLER_BYTE};
use ringrelay::frame::{
    end_sentinel, fragment_payload, is_end_sentinel, kind_code, kind_from_code, FragmentKind,
    CHUNK_SIZE, KIND_CODE_DATA, KIND_CODE_DIRECTORY,
};
use ringrelay::reassembly::ReassemblyStore;

#[test]
fn sentinel_is_recognised_and_nothing_else() {
    let marker = end_sentinel();
    assert_eq!(marker, b"MINSENDEND".to_vec());
    assert!(is_end_sentinel(&marker));
    assert!(!is_end_sentinel(&b"MINSENDEN".to_vec()));
    assert!(!is_end_sentinel(&b"MINSENDENDX".to_vec()));
    assert!(!is_end_sentinel(&Vec::new()));
}

#[test]
fn kind_codes_round_trip() {
    assert_eq!(kind_code(FragmentKind::Data), KIND_CODE_DATA);
    assert_eq!(kind_code(FragmentKind::Directory), KIND_CODE_DIRECTORY);
    assert_eq!(kind_from_code(KIND_CODE_DATA), Some(FragmentKind::Data));
    assert_eq!(kind_from_code(KIND_CODE_DIRECTORY), Some(FragmentKind::Directory));
    assert_eq!(kind_from_code(77), None);
}

// Scenario: a 5000-byte payload with 1024-byte chunks makes exactly five
// data fragments plus one end sentinel, and reassembles to 5000 bytes.
#[test]
fn scenario_five_thousand_bytes() {
    let payload: Vec<u8> = (0..5000u32).map(|i| (i % 251) as u8).collect();
    let frags = fragment_payload(&payload, CHUNK_SIZE, FragmentKind::Data);
    assert_eq!(frags.len(), 6);
    for frag in frags.iter().take(4) {
        assert_eq!(frag.bytes.len(), 1024);
    }
    assert_eq!(frags[4].bytes.len(), 5000 - 4 * 1024);
    assert!(is_end_sentinel(&frags[5].bytes));

    let mut store = ReassemblyStore::new();
    let sender = "10.0.0.1:3333".to_string();
    let mut done = None;
    for frag in &frags {
        done = store.on_fragment(&sender, &frag.bytes);
    }
    let buffer = done.expect("the sentinel completes the transfer");
    assert_eq!(buffer.len(), 5000);
    assert_eq!(buffer, payload);
}

// Round trip for payloads that do not fill a whole chunk, and for the
// empty payload, whose completed buffer is empty but valid.
#[test]
fn round_trip_small_and_empty_payloads() {
    let mut store = ReassemblyStore::new();
    let sender = "10.0.0.2:3333".to_string();

    let small = b"hello, ring".to_vec();
    let frags = fragment_payload(&small, CHUNK_SIZE, FragmentKind::Data);
    assert_eq!(frags.len(), 2);
    let mut done = None;
    for frag in &frags {
        done = store.on_fragment(&sender, &frag.bytes);
    }
    assert_eq!(done.expect("completed"), small);

    let empty: Vec<u8> = Vec::new();
    let frags = fragment_payload(&empty, CHUNK_SIZE, FragmentKind::Data);
    assert_eq!(frags.len(), 1);
    let done = store.on_fragment(&sender, &frags[0].bytes);
    assert_eq!(done.expect("an empty completed buffer is a valid signal"), empty);
}

// The store never retains an entry for a sender once its end sentinel has
// been processed: a fresh transfer starts from an empty buffer.
#[test]
fn no_leak_across_transfers() {
    let mut store = ReassemblyStore::new();
    let sender = "10.0.0.3:3333".to_string();

    store.on_fragment(&sender, &b"first".to_vec());
    assert_eq!(store.pending_count(), 1);
    let done = store.on_fragment(&sender, &end_sentinel());
    assert_eq!(done.unwrap(), b"first".to_vec());
    assert_eq!(store.pending_count(), 0);

    store.on_fragment(&sender, &b"second".to_vec());
    let done = store.on_fragment(&sender, &end_sentinel());
    assert_eq!(done.unwrap(), b"second".to_vec());
    assert_eq!(store.pending_count(), 0);
}

// Concurrent senders accumulate independently.
#[test]
fn independent_buffers_per_sender() {
    let mut store = ReassemblyStore::new();
    let alice = "10.0.0.4:3333".to_string();
    let bob = "10.0.0.5:3333".to_string();

    store.on_fragment(&alice, &b"aaa".to_vec());
    store.on_fragment(&bob, &b"bb".to_vec());
    store.on_fragment(&alice, &b"AAA".to_vec());

    let got_alice = store.on_fragment(&alice, &end_sentinel()).unwrap();
    assert_eq!(got_alice, b"aaaAAA".to_vec());
    let got_bob = store.on_fragment(&bob, &end_sentinel()).unwrap();
    assert_eq!(got_bob, b"bb".to_vec());
}

// A sentinel with no open transfer completes with an empty buffer rather
// than failing.
#[test]
fn sentinel_without_transfer_is_empty_completion() {
    let mut store = ReassemblyStore::new();
    let sender = "10.0.0.6:3333".to_string();
    let done = store.on_fragment(&sender, &end_sentinel());
    assert_eq!(done.unwrap(), Vec::<u8>::new());
}

// End to end through the relay's data path: a client's payload is
// fragmented, reassembled at the server, framed for the content-hiding
// step, padded with carrier filler as an embedding would, and recovered
// exactly.
#[test]
fn relay_data_path_end_to_end() {
    let payload: Vec<u8> = (0..3333u32).map(|i| (i % 241) as u8).collect();
    let frags = fragment_payload(&payload, CHUNK_SIZE, FragmentKind::Data);

    let mut store = ReassemblyStore::new();
    let sender = "10.0.0.9:3333".to_string();
    let mut done = None;
    for frag in &frags {
        done = store.on_fragment(&sender, &frag.bytes);
    }
    let reassembled = done.expect("completed");
    assert_eq!(reassembled, payload);

    let mut embedded = prepare_relay_payload(&reassembled);
    embedded.resize(embedded.len() + 4096, FILLER_BYTE);
    assert_eq!(recover_relay_payload(&embedded), Some(payload));
}
