use ringrelay::codec::{prepare_relay_payload, recover_relay_payload, FILLER_BYTE};

// The framing spells payloads in standard base64; the wrappers must not
// hand their input back unchanged.
#[test]
fn framing_is_standard_base64() {
    assert_eq!(prepare_relay_payload(&b"hi".to_vec()), b"aGk=".to_vec());
    assert_eq!(prepare_relay_payload(&Vec::new()), Vec::<u8>::new());
    assert_eq!(recover_relay_payload(&b"aGk=".to_vec()), Some(b"hi".to_vec()));
}

// The relay round trip: frame a payload, pad it with the carrier's filler
// bytes as an embedding would, and recover the payload exactly.
#[test]
fn framed_payload_survives_filler_padding() {
    let payload: Vec<u8> = (0..2048u32).map(|i| (i % 253) as u8).collect();
    let mut embedded = prepare_relay_payload(&payload);
    for _ in 0..777 {
        embedded.push(FILLER_BYTE);
    }
    assert_eq!(recover_relay_payload(&embedded), Some(payload));
}

#[test]
fn recovery_refuses_text_that_is_not_base64() {
    assert_eq!(recover_relay_payload(&b"!!!not base64!!!".to_vec()), None);
    // A lone padding character is not well-formed either.
    assert_eq!(recover_relay_payload(&b"=".to_vec()), None);
}
