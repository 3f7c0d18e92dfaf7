use ringrelay::session::{
    build_back_online, build_going_offline, build_hello, build_offline_record, build_online_signal,
    build_renew_request, build_renew_response, build_sample_batch, build_selection,
    build_view_update, end_marker_text, readdress, strip_port, ClientSession, Envelope,
    INITIAL_VIEW_BUDGET, MSG_ID_ASSET, MSG_ID_BACK_ONLINE, MSG_ID_GOING_OFFLINE, MSG_ID_HELLO,
    MSG_ID_OFFLINE_RECORD, MSG_ID_ONLINE_SIGNAL, MSG_ID_RENEW_REQUEST, MSG_ID_RENEW_RESPONSE,
    MSG_ID_SAMPLE, MSG_ID_SELECTION, MSG_ID_VIEW_UPDATE, RENEWED_VIEW_BUDGET,
    SAMPLE_BATCH_SENTINEL_VIEWS,
};

fn selection_envelope(text: &str) -> Envelope {
    Envelope {
        message_text: text.to_string(),
        message_id: MSG_ID_SELECTION,
        payload_fragment: Vec::new(),
        view_count: 0,
        correlation_name: String::new(),
        is_sample: false,
        sample_index: 0,
    }
}

#[test]
fn address_helpers_cut_at_the_first_colon() {
    assert_eq!(strip_port(&"127.0.0.4:5555".to_string()), "127.0.0.4");
    assert_eq!(strip_port(&"hostonly".to_string()), "hostonly");
    assert_eq!(readdress(&"127.0.0.4:5555".to_string(), ":9999"), "127.0.0.4:9999");
}

#[test]
fn builders_fill_the_wire_fields() {
    let hello = build_hello();
    assert_eq!(hello.message_id, MSG_ID_HELLO);
    assert_eq!(hello.message_text, "HELLO");

    let sel = build_selection(2);
    assert_eq!(sel.message_id, MSG_ID_SELECTION);
    assert_eq!(sel.message_text, "2");

    let renew = build_renew_request(7);
    assert_eq!(renew.message_id, MSG_ID_RENEW_REQUEST);
    assert_eq!(renew.correlation_name, "7");

    let grant = build_renew_response(&renew, true);
    assert_eq!(grant.message_id, MSG_ID_RENEW_RESPONSE);
    assert_eq!(grant.message_text, "yes");
    assert_eq!(grant.view_count, RENEWED_VIEW_BUDGET);
    assert_eq!(grant.correlation_name, "7");

    let deny = build_renew_response(&renew, false);
    assert_eq!(deny.message_text, "no");
    assert_eq!(deny.view_count, 0);

    let update = build_view_update(&"10.0.0.8:9999".to_string(), 7, 12);
    assert_eq!(update.message_id, MSG_ID_VIEW_UPDATE);
    assert_eq!(update.message_text, "10.0.0.8:9999");
    assert_eq!(update.view_count, 12);
    assert_eq!(update.correlation_name, "7");

    assert_eq!(build_going_offline().message_id, MSG_ID_GOING_OFFLINE);
    assert_eq!(build_back_online().message_id, MSG_ID_BACK_ONLINE);
    let record = build_offline_record(&"10.0.0.8:9999".to_string());
    assert_eq!(record.message_id, MSG_ID_OFFLINE_RECORD);
    assert_eq!(record.message_text, "10.0.0.8:9999");
    let online = build_online_signal(&"10.0.0.8:9999".to_string());
    assert_eq!(online.message_id, MSG_ID_ONLINE_SIGNAL);
}

#[test]
fn sample_batch_flags_only_the_last_preview() {
    let samples = vec![b"one".to_vec(), b"two".to_vec(), b"three".to_vec()];
    let batch = build_sample_batch(&samples);
    assert_eq!(batch.len(), 3);
    for (i, env) in batch.iter().enumerate() {
        assert_eq!(env.message_id, MSG_ID_SAMPLE);
        assert!(env.is_sample);
        assert_eq!(env.sample_index, i as u8);
        assert_eq!(env.payload_fragment, samples[i]);
        let expected = if i == 2 { SAMPLE_BATCH_SENTINEL_VIEWS } else { 0 };
        assert_eq!(env.view_count, expected);
    }
}

#[test]
fn sample_accumulation_completes_on_the_sentinel() {
    let samples = vec![b"one".to_vec(), b"two".to_vec()];
    let batch = build_sample_batch(&samples);
    let mut session = ClientSession::new();
    assert!(session.on_sample_chunk(&batch[0]).is_none());
    let complete = session.on_sample_chunk(&batch[1]).expect("last preview completes");
    assert_eq!(complete, samples);
    assert!(session.samples.is_empty());
}

// Serving a selection streams the chosen asset in order with the marker
// envelope last, allocates a fresh correlation name and records the
// transfer.
#[test]
fn serve_selection_streams_and_records() {
    let mut session = ClientSession::new();
    let catalog = vec![
        (0..5000u32).map(|i| (i % 199) as u8).collect::<Vec<u8>>(),
        b"tiny".to_vec(),
    ];
    let dest = "127.0.0.5:5555".to_string();
    let stream = session
        .serve_selection(&selection_envelope("1"), &catalog, &dest)
        .expect("a valid selection is served");
    assert_eq!(stream.len(), 6);
    let mut rebuilt = Vec::new();
    for env in stream.iter().take(5) {
        assert_eq!(env.message_id, MSG_ID_ASSET);
        rebuilt.extend_from_slice(&env.payload_fragment);
    }
    assert_eq!(rebuilt, catalog[0]);
    let last = &stream[5];
    assert_eq!(last.message_text, end_marker_text());
    assert_eq!(last.view_count, INITIAL_VIEW_BUDGET);
    assert_eq!(last.correlation_name, "1");
    assert_eq!(session.next_correlation, 2);
    assert_eq!(session.sent.len(), 1);
    assert_eq!(session.sent[0].correlation_id, 1);
    assert_eq!(session.sent[0].destination, dest);
}

// A selection that does not parse, names sample zero, or is out of range
// is refused with nothing changed.
#[test]
fn serve_selection_refuses_bad_choices() {
    let mut session = ClientSession::new();
    let catalog = vec![b"only".to_vec()];
    let dest = "127.0.0.5:5555".to_string();
    assert!(session.serve_selection(&selection_envelope("nope"), &catalog, &dest).is_none());
    assert!(session.serve_selection(&selection_envelope("0"), &catalog, &dest).is_none());
    assert!(session.serve_selection(&selection_envelope("2"), &catalog, &dest).is_none());
    assert_eq!(session.next_correlation, 1);
    assert!(session.sent.is_empty());
}

fn receive_whole_asset(session: &mut ClientSession, stream: &[Envelope], origin: &String) -> Vec<u8> {
    let mut done = None;
    for env in stream {
        done = session.on_asset_envelope(env, origin, "asset_1.png".to_string());
    }
    done.expect("the marker envelope completes the transfer")
}

#[test]
fn asset_transfer_records_the_received_asset() {
    let mut sender = ClientSession::new();
    let catalog = vec![(0..3000u32).map(|i| (i % 97) as u8).collect::<Vec<u8>>()];
    let origin = "127.0.0.6:5555".to_string();
    let stream = sender
        .serve_selection(&selection_envelope("1"), &catalog, &"127.0.0.4:5555".to_string())
        .unwrap();

    let mut receiver = ClientSession::new();
    let payload = receive_whole_asset(&mut receiver, &stream, &origin);
    assert_eq!(payload, catalog[0]);
    assert!(receiver.assembly.is_empty());
    assert_eq!(receiver.received.len(), 1);
    let asset = &receiver.received[0];
    assert_eq!(asset.handle, "asset_1.png");
    assert_eq!(asset.remaining_views, INITIAL_VIEW_BUDGET);
    assert_eq!(asset.correlation_id, 1);
    assert_eq!(asset.origin, origin);
}

// The view budget is spent one view at a time and never goes negative
// from local viewing: the fourth attempt is refused.
#[test]
fn view_budget_never_goes_negative_locally() {
    let mut sender = ClientSession::new();
    let catalog = vec![b"art".to_vec()];
    let origin = "127.0.0.6:5555".to_string();
    let stream = sender
        .serve_selection(&selection_envelope("1"), &catalog, &"127.0.0.4:5555".to_string())
        .unwrap();
    let mut receiver = ClientSession::new();
    receive_whole_asset(&mut receiver, &stream, &origin);

    for _ in 0..INITIAL_VIEW_BUDGET {
        assert_eq!(receiver.view_asset(0).as_deref(), Some("asset_1.png"));
    }
    assert_eq!(receiver.received[0].remaining_views, 0);
    assert!(receiver.view_asset(0).is_none());
    assert_eq!(receiver.received[0].remaining_views, 0);
}

// A declined renew request leaves the budget unchanged; a granted one
// applies the renewed budget to the matching asset.
#[test]
fn renew_deny_leaves_views_unchanged() {
    let mut sender = ClientSession::new();
    let catalog = vec![b"art".to_vec()];
    let origin = "127.0.0.6:5555".to_string();
    let stream = sender
        .serve_selection(&selection_envelope("1"), &catalog, &"127.0.0.4:5555".to_string())
        .unwrap();
    let mut receiver = ClientSession::new();
    receive_whole_asset(&mut receiver, &stream, &origin);
    receiver.view_asset(0);
    assert_eq!(receiver.received[0].remaining_views, INITIAL_VIEW_BUDGET - 1);

    let request = build_renew_request(receiver.received[0].correlation_id);
    let deny = build_renew_response(&request, false);
    assert!(!receiver.on_renew_response(&deny));
    assert_eq!(receiver.received[0].remaining_views, INITIAL_VIEW_BUDGET - 1);

    let grant = build_renew_response(&request, true);
    assert!(receiver.on_renew_response(&grant));
    assert_eq!(receiver.received[0].remaining_views, RENEWED_VIEW_BUDGET);
}

#[test]
fn view_grant_only_touches_the_matching_correlation() {
    let mut receiver = ClientSession::new();
    let origin = "127.0.0.6:5555".to_string();
    for correlation in ["4", "9"] {
        let marker = Envelope {
            message_text: "MINSENDEND".to_string(),
            message_id: MSG_ID_ASSET,
            payload_fragment: Vec::new(),
            view_count: 3,
            correlation_name: correlation.to_string(),
            is_sample: false,
            sample_index: 0,
        };
        receiver.on_asset_envelope(&marker, &origin, format!("asset_{}.png", correlation));
    }
    assert!(receiver.apply_view_grant(&"9".to_string(), 11));
    assert_eq!(receiver.received[0].remaining_views, 3);
    assert_eq!(receiver.received[1].remaining_views, 11);
    assert!(!receiver.apply_view_grant(&"123".to_string(), 1));
    assert!(!receiver.apply_view_grant(&"not a number".to_string(), 1));
}

#[test]
fn offline_peers_are_tracked_and_first_match_is_removed() {
    let mut session = ClientSession::new();
    let peer = "127.0.0.5:5555".to_string();
    let other = "127.0.0.6:5555".to_string();
    session.on_going_offline(&peer);
    session.on_going_offline(&other);
    assert!(session.route_via_servers(&peer));
    assert!(!session.route_via_servers(&"127.0.0.7:5555".to_string()));

    assert!(session.on_back_online(&peer));
    assert!(!session.route_via_servers(&peer));
    assert!(session.route_via_servers(&other));
    assert!(!session.on_back_online(&peer));
}
