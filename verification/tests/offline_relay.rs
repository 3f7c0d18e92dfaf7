use ringrelay::frame::{end_sentinel, Fragment, FragmentKind};
use ringrelay::offline::{make_replay, OfflineQueue};
use ringrelay::relay::{holds_leadership, InboundMessage, ReceiverSignal, ServerState};
use ringrelay::session::{
    build_offline_record, build_online_signal, build_view_update, Envelope, MSG_ID_REPLAY,
};

fn offline_record(target: &str) -> Envelope {
    build_offline_record(&target.to_string())
}

#[test]
fn queue_deduplicates_by_target() {
    let mut q = OfflineQueue::new();
    assert!(q.record(offline_record("10.0.0.8:9999")));
    assert!(!q.record(offline_record("10.0.0.8:9999")));
    assert!(q.record(offline_record("10.0.0.9:9999")));
    assert_eq!(q.len(), 2);
}

#[test]
fn queue_update_amends_the_waiting_entry() {
    let mut q = OfflineQueue::new();
    q.record(offline_record("10.0.0.8:9999"));
    assert!(q.apply_update(&"10.0.0.8:9999".to_string(), &"4".to_string(), 12));
    assert!(!q.apply_update(&"10.0.0.1:9999".to_string(), &"4".to_string(), 12));
    let i = q.find_target(&"10.0.0.8:9999".to_string()).unwrap();
    let entry = q.take_at(i);
    assert_eq!(entry.correlation_name, "4");
    assert_eq!(entry.view_count, 12);
}

// An entry queued for an offline target is delivered at most once: after
// it is taken for replay, a second online signal finds nothing.
#[test]
fn queued_entry_is_delivered_at_most_once() {
    let mut q = OfflineQueue::new();
    q.record(offline_record("10.0.0.8:9999"));
    let i = q.find_target(&"10.0.0.8:9999".to_string()).expect("queued");
    let entry = q.take_at(i);
    assert_eq!(entry.message_text, "10.0.0.8:9999");
    assert!(q.find_target(&"10.0.0.8:9999".to_string()).is_none());
    assert_eq!(q.len(), 0);
}

#[test]
fn replay_envelope_carries_the_stored_state() {
    let mut entry = offline_record("10.0.0.8:9999");
    entry.view_count = 7;
    entry.correlation_name = "3".to_string();
    let replay = make_replay(&entry);
    assert_eq!(replay.message_id, MSG_ID_REPLAY);
    assert_eq!(replay.message_text, "10.0.0.8:9999");
    assert_eq!(replay.view_count, 7);
    assert_eq!(replay.correlation_name, "3");
}

#[test]
fn receiver_registers_every_sender() {
    let mut server = ServerState::new();
    let frag = Fragment { bytes: b"part".to_vec(), kind: FragmentKind::Data };
    server.receiver_step(
        &"10.0.0.7".to_string(),
        &"10.0.0.7:3333".to_string(),
        InboundMessage::Transport(frag),
        ":9999",
    );
    assert!(server.directory.contains(&"10.0.0.7".to_string()));
}

#[test]
fn receiver_signals_payload_and_directory() {
    let mut server = ServerState::new();
    let ip = "10.0.0.7".to_string();
    let addr = "10.0.0.7:3333".to_string();

    let chunk = Fragment { bytes: b"image bytes".to_vec(), kind: FragmentKind::Data };
    let signal = server.receiver_step(&ip, &addr, InboundMessage::Transport(chunk), ":9999");
    assert!(matches!(signal, ReceiverSignal::Quiet));

    let sentinel = Fragment { bytes: end_sentinel(), kind: FragmentKind::Data };
    let signal = server.receiver_step(&ip, &addr, InboundMessage::Transport(sentinel), ":9999");
    match signal {
        ReceiverSignal::PayloadComplete(who, payload) => {
            assert_eq!(who, addr);
            assert_eq!(payload, b"image bytes".to_vec());
        }
        _ => panic!("the sentinel completes the payload"),
    }

    let query = Fragment { bytes: Vec::new(), kind: FragmentKind::Directory };
    let signal = server.receiver_step(&ip, &addr, InboundMessage::Transport(query), ":9999");
    match signal {
        ReceiverSignal::DirectoryRequest(who) => assert_eq!(who, addr),
        _ => panic!("a directory fragment asks for the directory"),
    }
}

// The offline → online path: the record waits, a view update amends it,
// the online signal finds it, and only the leader replays and removes it.
#[test]
fn offline_online_replay_through_the_relay() {
    let mut server = ServerState::new();
    let client_ip = "10.0.0.8".to_string();
    let client_send_addr = "10.0.0.8:3333".to_string();

    let record = offline_record("10.0.0.8:9999");
    let signal = server.receiver_step(
        &"10.0.0.5".to_string(),
        &"10.0.0.5:3333".to_string(),
        InboundMessage::Session(record),
        ":9999",
    );
    assert!(matches!(signal, ReceiverSignal::Quiet));
    assert_eq!(server.offline.len(), 1);

    let update = build_view_update(&"10.0.0.8:9999".to_string(), 4, 9);
    server.receiver_step(
        &"10.0.0.5".to_string(),
        &"10.0.0.5:3333".to_string(),
        InboundMessage::Session(update),
        ":9999",
    );

    let online = build_online_signal(&"10.0.0.8:9999".to_string());
    let signal = server.receiver_step(
        &client_ip,
        &client_send_addr,
        InboundMessage::Session(online),
        ":9999",
    );
    let index = match signal {
        ReceiverSignal::ReplayReady(i) => i,
        _ => panic!("the online signal finds the waiting entry"),
    };

    // A non-leader keeps the entry for a later round.
    assert!(server.serve_replay(index, false).is_none());
    assert_eq!(server.offline.len(), 1);

    // The leader delivers it exactly once.
    let (dest, replay) = server.serve_replay(index, true).expect("the leader replays");
    assert_eq!(dest, "10.0.0.8:9999");
    assert_eq!(replay.message_id, MSG_ID_REPLAY);
    assert_eq!(replay.view_count, 9);
    assert_eq!(replay.correlation_name, "4");
    assert_eq!(server.offline.len(), 0);

    // A second online signal finds nothing to replay.
    let online = build_online_signal(&"10.0.0.8:9999".to_string());
    let signal = server.receiver_step(
        &client_ip,
        &client_send_addr,
        InboundMessage::Session(online),
        ":9999",
    );
    assert!(matches!(signal, ReceiverSignal::Quiet));
}

#[test]
fn only_the_leader_answers_directory_queries() {
    let mut server = ServerState::new();
    server.directory.register(&"10.0.0.1".to_string());
    server.directory.register(&"10.0.0.2".to_string());
    assert!(server.serve_directory(&"10.0.0.1".to_string(), false).is_none());
    let text = server.serve_directory(&"10.0.0.1".to_string(), true).unwrap();
    assert_eq!(text, "10.0.0.2\n");
    assert!(holds_leadership(2, 2));
    assert!(!holds_leadership(1, 2));
}
