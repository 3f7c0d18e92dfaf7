//! Datagram framing: an application payload is split into fixed-size chunks,
//! each carried by one fragment, followed by one end-of-stream sentinel
//! fragment whose bytes are a literal marker distinguishable from real data.
//!
//! Receivers read one fragment at a time and perform no reordering: the
//! round trip is exact only when fragments arrive in send order, a documented
//! limitation of the transport.

use vstd::prelude::*;

verus! {

/// Size of one data chunk, in bytes.
pub const CHUNK_SIZE: usize = 1024;

/// A short pacing pause is inserted after every this many chunks, purely to
/// avoid overrunning the receiver's socket buffer; the pause itself is the
/// caller's concern.
pub const PACING_INTERVAL: usize = 15;

/// Wire code for a payload-carrying fragment.
pub const KIND_CODE_DATA: u8 = 1;

/// Wire code for a directory-request or directory-answer fragment.
pub const KIND_CODE_DIRECTORY: u8 = 2;

/// What a fragment carries: a piece of a relayed payload, or directory
/// traffic.
#[derive(Clone, Copy, PartialEq, Eq, Structural, Debug)]
pub enum FragmentKind {
    /// A chunk of an application payload.
    Data,
    /// A directory query or a directory answer.
    Directory,
}

/// One datagram's worth of application traffic.
#[derive(Debug)]
pub struct Fragment {
    /// The carried bytes: one chunk of payload, a directory record, or the
    /// end sentinel.
    pub bytes: Vec<u8>,
    /// Which channel this fragment belongs to.
    pub kind: FragmentKind,
}

/// The wire code of a fragment kind.
pub fn kind_code(kind: FragmentKind) -> (code: u8)
    ensures
        kind == FragmentKind::Data ==> code == KIND_CODE_DATA,
        kind == FragmentKind::Directory ==> code == KIND_CODE_DIRECTORY,
{
    match kind {
        FragmentKind::Data => KIND_CODE_DATA,
        FragmentKind::Directory => KIND_CODE_DIRECTORY,
    }
}

/// The fragment kind denoted by a wire code, if any.
pub fn kind_from_code(code: u8) -> (kind: Option<FragmentKind>)
    ensures
        code == KIND_CODE_DATA ==> kind == Some(FragmentKind::Data),
        code == KIND_CODE_DIRECTORY ==> kind == Some(FragmentKind::Directory),
        code != KIND_CODE_DATA && code != KIND_CODE_DIRECTORY ==> kind is None,
{
    if code == KIND_CODE_DATA {
        Some(FragmentKind::Data)
    } else if code == KIND_CODE_DIRECTORY {
        Some(FragmentKind::Directory)
    } else {
        None
    }
}

/// The bytes of the end-of-stream sentinel marker.
pub open spec fn spec_end_sentinel() -> Seq<u8> {
    seq![77u8, 73u8, 78u8, 83u8, 69u8, 78u8, 68u8, 69u8, 78u8, 68u8]
}

/// Builds the end-of-stream sentinel marker.
pub fn end_sentinel() -> (marker: Vec<u8>)
    ensures
        marker@ == spec_end_sentinel(),
{
    let mut marker: Vec<u8> = Vec::new();
    marker.push(77);
    marker.push(73);
    marker.push(78);
    marker.push(83);
    marker.push(69);
    marker.push(78);
    marker.push(68);
    marker.push(69);
    marker.push(78);
    marker.push(68);
    proof {
        assert(marker@ =~= spec_end_sentinel());
    }
    marker
}

/// Whether `bytes` are exactly the end-of-stream sentinel marker.
pub fn is_end_sentinel(bytes: &Vec<u8>) -> (yes: bool)
    ensures
        yes == (bytes@ == spec_end_sentinel()),
{
    let marker = end_sentinel();
    if bytes.len() != marker.len() {
        proof {
            assert(bytes@ != spec_end_sentinel());
        }
        return false;
    }
    let mut i: usize = 0;
    while i < marker.len()
        invariant
            marker@ == spec_end_sentinel(),
            bytes@.len() == marker@.len(),
            0 <= i <= marker@.len(),
            forall|j: int| 0 <= j < i ==> bytes@[j] == marker@[j],
        decreases marker@.len() - i,
    {
        if bytes[i] != marker[i] {
            proof {
                assert(bytes@ != spec_end_sentinel());
            }
            return false;
        }
        i += 1;
    }
    proof {
        assert(bytes@ =~= spec_end_sentinel());
    }
    true
}

/// The payload split into chunks of at most `c` bytes: every chunk but the
/// last is exactly `c` bytes, the last holds the remainder, and an empty
/// payload yields no chunks.
pub open spec fn spec_chunks(p: Seq<u8>, c: int) -> Seq<Seq<u8>>
    recommends
        c > 0,
    decreases p.len(),
    when c > 0
{
    if p.len() == 0 {
        Seq::empty()
    } else if p.len() <= c {
        seq![p]
    } else {
        seq![p.take(c)] + spec_chunks(p.skip(c), c)
    }
}

/// Concatenation of a sequence of byte sequences, in order.
pub open spec fn spec_concat(parts: Seq<Seq<u8>>) -> Seq<u8>
    decreases parts.len(),
{
    if parts.len() == 0 {
        Seq::empty()
    } else {
        parts[0] + spec_concat(parts.skip(1))
    }
}

/// Splitting a payload into chunks loses nothing and invents nothing:
/// concatenating the chunks in order restores the payload exactly.
pub proof fn lemma_chunks_concat(p: Seq<u8>, c: int)
    requires
        c > 0,
    ensures
        spec_concat(spec_chunks(p, c)) =~= p,
    decreases p.len(),
{
    if p.len() == 0 {
    } else if p.len() <= c {
        let chunks = spec_chunks(p, c);
        assert(chunks =~= seq![p]);
        assert(chunks.skip(1) =~= Seq::<Seq<u8>>::empty());
        assert(spec_concat(chunks) == chunks[0] + spec_concat(chunks.skip(1)));
        assert(chunks[0] == p);
    } else {
        lemma_chunks_concat(p.skip(c), c);
        let rest = spec_chunks(p.skip(c), c);
        let chunks = spec_chunks(p, c);
        assert(chunks == seq![p.take(c)] + rest);
        assert(chunks.skip(1) =~= rest);
        assert(chunks[0] == p.take(c));
        assert(spec_concat(chunks) == chunks[0] + spec_concat(chunks.skip(1)));
        assert(p.take(c) + p.skip(c) =~= p);
    }
}

/// No chunk of the payload collides with the end-of-stream sentinel, so a
/// receiver that watches for the sentinel never ends the stream early.
pub open spec fn spec_chunks_clear_of_sentinel(p: Seq<u8>, c: int) -> bool {
    forall|i: int|
        0 <= i < spec_chunks(p, c).len() ==> #[trigger] spec_chunks(p, c)[i]
            != spec_end_sentinel()
}

/// Splits `payload` into data fragments of at most `chunk_size` bytes and
/// appends the end-of-stream sentinel fragment, all of the given kind.
pub fn fragment_payload(payload: &Vec<u8>, chunk_size: usize, kind: FragmentKind) -> (frags: Vec<
    Fragment,
>)
    requires
        chunk_size > 0,
    ensures
        frags@.len() == spec_chunks(payload@, chunk_size as int).len() + 1,
        forall|i: int|
            0 <= i < frags@.len() - 1 ==> (#[trigger] frags@[i]).bytes@ == spec_chunks(
                payload@,
                chunk_size as int,
            )[i] && frags@[i].kind == kind,
        frags@[frags@.len() - 1].bytes@ == spec_end_sentinel(),
        frags@[frags@.len() - 1].kind == kind,
{
    let ghost c = chunk_size as int;
    let mut frags: Vec<Fragment> = Vec::new();
    let mut off: usize = 0;
    proof {
        assert(payload@.skip(0) =~= payload@);
        assert(frags@.map_values(|f: Fragment| f.bytes@) =~= Seq::<Seq<u8>>::empty());
    }
    while off < payload.len()
        invariant
            chunk_size > 0,
            c == chunk_size as int,
            0 <= off <= payload@.len(),
            frags@.len() == spec_chunks(payload@, c).len() - spec_chunks(
                payload@.skip(off as int),
                c,
            ).len(),
            forall|i: int|
                0 <= i < frags@.len() ==> (#[trigger] frags@[i]).bytes@ == spec_chunks(
                    payload@,
                    c,
                )[i] && frags@[i].kind == kind,
            spec_chunks(payload@, c) =~= frags@.map_values(|f: Fragment| f.bytes@) + spec_chunks(
                payload@.skip(off as int),
                c,
            ),
        decreases payload@.len() - off,
    {
        let end: usize = if payload.len() - off > chunk_size {
            off + chunk_size
        } else {
            payload.len()
        };
        let mut chunk: Vec<u8> = Vec::new();
        chunk.extend_from_slice(&payload.as_slice()[off..end]);
        proof {
            let rest = payload@.skip(off as int);
            assert(rest.len() > 0);
            if rest.len() <= c {
                assert(chunk@ =~= rest);
                assert(spec_chunks(rest, c) =~= seq![rest]);
                assert(payload@.skip(end as int).len() == 0);
            } else {
                assert(chunk@ =~= rest.take(c));
                assert(payload@.skip(end as int) =~= rest.skip(c));
            }
            assert(spec_chunks(rest, c) =~= seq![chunk@] + spec_chunks(
                payload@.skip(end as int),
                c,
            ));
        }
        let ghost frags_before = frags@;
        let ghost chunk_view = chunk@;
        frags.push(Fragment { bytes: chunk, kind });
        proof {
            let mapped = frags@.map_values(|f: Fragment| f.bytes@);
            assert(forall|i: int| 0 <= i < frags_before.len() ==> frags@[i] == frags_before[i]);
            assert(mapped =~= frags_before.map_values(|f: Fragment| f.bytes@) + seq![chunk_view]);
            assert(spec_chunks(payload@, c) =~= mapped + spec_chunks(
                payload@.skip(end as int),
                c,
            ));
            assert(forall|i: int|
                0 <= i < frags@.len() ==> (#[trigger] frags@[i]).bytes@ == mapped[i]);
            assert(forall|i: int| 0 <= i < frags@.len() ==> mapped[i] == spec_chunks(payload@, c)[i]);
            assert(forall|i: int|
                0 <= i < frags@.len() ==> (#[trigger] frags@[i]).bytes@ == spec_chunks(
                    payload@,
                    c,
                )[i] && frags@[i].kind == kind);
        }
        off = end;
    }
    proof {
        assert(payload@.skip(off as int).len() == 0);
        assert(spec_chunks(payload@.skip(off as int), c) =~= Seq::<Seq<u8>>::empty());
    }
    let ghost data_frags = frags@;
    frags.push(Fragment { bytes: end_sentinel(), kind });
    proof {
        assert(forall|i: int| 0 <= i < data_frags.len() ==> frags@[i] == data_frags[i]);
        assert(forall|i: int|
            0 <= i < frags@.len() - 1 ==> (#[trigger] frags@[i]).bytes@ == spec_chunks(
                payload@,
                chunk_size as int,
            )[i] && frags@[i].kind == kind);
    }
    frags
}

} // verus!
