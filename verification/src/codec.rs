//! Payload framing for the relay's content-hiding step.
//!
//! Before a payload is hidden in a carrier image, the relay spells it in
//! base64 text; after extraction, the embedded text is recovered by
//! dropping the carrier's opaque filler bytes and decoding. The hiding
//! codec itself is an external collaborator consumed through an opaque
//! byte-in, byte-out interface; this module owns the byte framing around
//! it and proves the framing round trip.

use vstd::prelude::*;

verus! {

/// The filler byte value an untouched carrier cell reads back as; real
/// framed content never contains it, so it can be stripped safely.
pub const FILLER_BYTE: u8 = 0xff;

/// The base64 text, as bytes, that spells `data`.
pub uninterp spec fn spec_base64_bytes(data: Seq<u8>) -> Seq<u8>;

/// The bytes a base64 text decodes to, or nothing if the text is not
/// well-formed base64.
pub uninterp spec fn spec_base64_parse(text: Seq<u8>) -> Option<Seq<u8>>;

/// Relies on base64::encode with the standard alphabet: the output is a
/// function of the input bytes alone, every output byte is ASCII, and
/// base64::decode inverts it.
#[verifier::external_body]
fn base64_encode(data: &Vec<u8>) -> (text: Vec<u8>)
    ensures
        text@ == spec_base64_bytes(data@),
        forall|i: int| 0 <= i < text@.len() ==> text@[i] < 128,
        spec_base64_parse(text@) == Some(data@),
{
    base64::encode(data).into_bytes()
}

/// Relies on base64::decode with the standard alphabet: acceptance and the
/// decoded bytes are a function of the input text alone.
#[verifier::external_body]
fn base64_decode(text: &Vec<u8>) -> (data: Option<Vec<u8>>)
    ensures
        match data {
            Some(v) => spec_base64_parse(text@) == Some(v@),
            None => spec_base64_parse(text@) is None,
        },
{
    base64::decode(text).ok()
}

/// `bytes` with every filler byte dropped, order kept.
pub open spec fn spec_strip_filler(bytes: Seq<u8>) -> Seq<u8>
    decreases bytes.len(),
{
    if bytes.len() == 0 {
        Seq::empty()
    } else if bytes[0] == FILLER_BYTE {
        spec_strip_filler(bytes.skip(1))
    } else {
        seq![bytes[0]] + spec_strip_filler(bytes.skip(1))
    }
}

/// Spells a reassembled payload as base64 text bytes, ready to hand to the
/// content-hiding collaborator.
pub fn prepare_relay_payload(payload: &Vec<u8>) -> (framed: Vec<u8>)
    ensures
        framed@ == spec_base64_bytes(payload@),
        forall|i: int| 0 <= i < framed@.len() ==> framed@[i] != FILLER_BYTE,
        spec_base64_parse(framed@) == Some(payload@),
{
    base64_encode(payload)
}

/// Recovers the original payload from what the content-hiding collaborator
/// extracted: drops the carrier's filler bytes, then decodes the base64
/// text; text that does not decode yields nothing.
pub fn recover_relay_payload(extracted: &Vec<u8>) -> (payload: Option<Vec<u8>>)
    ensures
        match payload {
            Some(v) => spec_base64_parse(spec_strip_filler(extracted@)) == Some(v@),
            None => spec_base64_parse(spec_strip_filler(extracted@)) is None,
        },
{
    let mut kept: Vec<u8> = Vec::new();
    let mut i: usize = 0;
    proof {
        assert(extracted@.skip(0) =~= extracted@);
        assert(kept@ + spec_strip_filler(extracted@) =~= spec_strip_filler(extracted@));
    }
    while i < extracted.len()
        invariant
            0 <= i <= extracted@.len(),
            spec_strip_filler(extracted@) =~= kept@ + spec_strip_filler(
                extracted@.skip(i as int),
            ),
        decreases extracted@.len() - i,
    {
        let ghost rest = extracted@.skip(i as int);
        proof {
            assert(rest.len() > 0);
            assert(rest[0] == extracted@[i as int]);
            assert(rest.skip(1) =~= extracted@.skip(i as int + 1));
        }
        let b = extracted[i];
        if b != FILLER_BYTE {
            let ghost kept_before = kept@;
            kept.push(b);
            proof {
                assert(spec_strip_filler(rest) == seq![rest[0]] + spec_strip_filler(rest.skip(1)));
                assert(kept@ =~= kept_before + seq![rest[0]]);
                assert(spec_strip_filler(extracted@) =~= kept@ + spec_strip_filler(
                    extracted@.skip(i as int + 1),
                ));
            }
        } else {
            proof {
                assert(spec_strip_filler(rest) == spec_strip_filler(rest.skip(1)));
            }
        }
        i += 1;
    }
    proof {
        assert(extracted@.skip(extracted@.len() as int) =~= Seq::<u8>::empty());
        assert(kept@ + Seq::<u8>::empty() =~= kept@);
        assert(kept@ == spec_strip_filler(extracted@));
    }
    base64_decode(&kept)
}

/// Stripping filler undoes what the carrier appends: a framed text that
/// itself holds no filler byte, followed by any run of filler bytes, strips
/// back to exactly the framed text. Together with the decode contract, a
/// payload framed by `prepare_relay_payload`, embedded, padded with filler
/// and extracted again is recovered exactly.
pub proof fn lemma_strip_filler_round_trip(framed: Seq<u8>, filler: Seq<u8>)
    requires
        forall|i: int| 0 <= i < framed.len() ==> framed[i] != FILLER_BYTE,
        forall|i: int| 0 <= i < filler.len() ==> filler[i] == FILLER_BYTE,
    ensures
        spec_strip_filler(framed + filler) == framed,
    decreases framed.len() + filler.len(),
{
    let whole = framed + filler;
    if framed.len() > 0 {
        assert(whole[0] == framed[0]);
        assert(whole[0] != FILLER_BYTE);
        assert(whole.skip(1) =~= framed.skip(1) + filler);
        assert(forall|i: int| 0 <= i < framed.skip(1).len() ==> framed.skip(1)[i] == framed[i + 1]);
        lemma_strip_filler_round_trip(framed.skip(1), filler);
        assert(spec_strip_filler(whole) == seq![framed[0]] + spec_strip_filler(whole.skip(1)));
        assert(seq![framed[0]] + framed.skip(1) =~= framed);
    } else if filler.len() > 0 {
        assert(whole[0] == filler[0]);
        assert(whole[0] == FILLER_BYTE);
        assert(whole.skip(1) =~= framed + filler.skip(1));
        assert(forall|i: int| 0 <= i < filler.skip(1).len() ==> filler.skip(1)[i] == filler[i + 1]);
        lemma_strip_filler_round_trip(framed, filler.skip(1));
        assert(spec_strip_filler(whole) == spec_strip_filler(whole.skip(1)));
    } else {
        assert(whole =~= Seq::<u8>::empty());
        assert(spec_strip_filler(whole) == Seq::<u8>::empty());
        assert(framed =~= Seq::<u8>::empty());
    }
}

} // verus!
