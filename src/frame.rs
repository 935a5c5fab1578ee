//! Length-prefixed framing: a two-byte little-endian length, then the payload.
use vstd::prelude::*;

verus! {

/// Largest payload a frame can carry.
pub const MAX_PACKET: usize = 65535;

/// Why a payload could not be framed.
#[derive(Clone, Copy, Debug, PartialEq, Eq, Structural)]
pub enum FrameError {
    PayloadTooLarge,
}

/// Payload length announced by a two-byte prefix.
pub open spec fn prefix_len(lo: u8, hi: u8) -> nat {
    lo as nat + 256 * hi as nat
}

/// The two prefix bytes announcing a payload of `n` bytes.
pub open spec fn prefix_of(n: nat) -> Seq<u8> {
    seq![(n % 256) as u8, (n / 256) as u8]
}

/// One complete frame carrying `p`.
pub open spec fn frame_of(p: Seq<u8>) -> Seq<u8> {
    prefix_of(p.len()) + p
}

/// The frames of a sequence of payloads, back to back.
pub open spec fn stream_of(ps: Seq<Seq<u8>>) -> Seq<u8>
    decreases ps.len(),
{
    if ps.len() == 0 {
        Seq::empty()
    } else {
        stream_of(ps.drop_last()) + frame_of(ps.last())
    }
}

/// Splits a byte sequence into the payloads of its complete leading frames
/// and the bytes left over, which do not yet form a complete frame.
pub open spec fn split_frames(b: Seq<u8>) -> (Seq<Seq<u8>>, Seq<u8>)
    decreases b.len(),
{
    if b.len() >= 2 && b.len() >= 2 + prefix_len(b[0], b[1]) {
        let end = 2 + prefix_len(b[0], b[1]);
        let rest = split_frames(b.subrange(end as int, b.len() as int));
        (seq![b.subrange(2, end as int)] + rest.0, rest.1)
    } else {
        (Seq::empty(), b)
    }
}

/// Byte contents of a sequence of buffers.
pub open spec fn buffer_views(s: Seq<Vec<u8>>) -> Seq<Seq<u8>> {
    s.map_values(|v: Vec<u8>| v@)
}

/// Concatenation of a sequence of chunks.
pub open spec fn flatten(chunks: Seq<Seq<u8>>) -> Seq<u8>
    decreases chunks.len(),
{
    if chunks.len() == 0 {
        Seq::empty()
    } else {
        flatten(chunks.drop_last()) + chunks.last()
    }
}

/// Payloads produced, and bytes left buffered, when the chunks are handed
/// one after the other to an assembler that starts with `pending` buffered.
pub open spec fn feed_all(pending: Seq<u8>, chunks: Seq<Seq<u8>>) -> (Seq<Seq<u8>>, Seq<u8>)
    decreases chunks.len(),
{
    if chunks.len() == 0 {
        (Seq::empty(), pending)
    } else {
        let prev = feed_all(pending, chunks.drop_last());
        let step = split_frames(prev.1 + chunks.last());
        (prev.0 + step.0, step.1)
    }
}

/// Relies on bincode::serialize of a u16: with its fixed-width default
/// encoding it writes the two bytes of the value, low byte first.
#[verifier::external_body]
fn size_to_bytes(n: u16) -> (r: Option<Vec<u8>>)
    ensures
        r is Some,
        r->0@ == prefix_of(n as nat),
{
    bincode::serialize(&n).ok()
}

/// Relies on bincode::deserialize of a u16: with its fixed-width default
/// encoding it reads two bytes, low byte first.
#[verifier::external_body]
pub(crate) fn size_from_bytes(b: &[u8]) -> (r: Option<u16>)
    requires
        b@.len() == 2,
    ensures
        r is Some,
        r->0 as nat == prefix_len(b@[0], b@[1]),
{
    bincode::deserialize::<u16>(b).ok()
}

/// Frames an encoded message for the wire: the length prefix followed by the
/// payload. A payload longer than `MAX_PACKET` is refused.
pub fn frame_payload(payload: &Vec<u8>) -> (r: Result<Vec<u8>, FrameError>)
    ensures
        r is Err <==> payload@.len() > MAX_PACKET,
        r is Err ==> r == Err::<Vec<u8>, FrameError>(FrameError::PayloadTooLarge),
        r is Ok ==> r->Ok_0@ == frame_of(payload@),
{
    if payload.len() > MAX_PACKET {
        return Err(FrameError::PayloadTooLarge);
    }
    let size = payload.len() as u16;
    let mut out = match size_to_bytes(size) {
        Some(v) => v,
        None => Vec::new(),
    };
    let mut i: usize = 0;
    while i < payload.len()
        invariant
            i <= payload@.len(),
            out@ == prefix_of(payload@.len()) + payload@.subrange(0, i as int),
        decreases payload@.len() - i,
    {
        out.push(payload[i]);
        i += 1;
        assert(out@ =~= prefix_of(payload@.len()) + payload@.subrange(0, i as int));
    }
    assert(payload@.subrange(0, payload@.len() as int) =~= payload@);
    Ok(out)
}

/// Splitting a concatenation: the frames of `a`, then the frames of what `a`
/// left over followed by `b`.
pub proof fn lemma_split_append(a: Seq<u8>, b: Seq<u8>)
    ensures
        split_frames(a + b) == (
            split_frames(a).0 + split_frames(split_frames(a).1 + b).0,
            split_frames(split_frames(a).1 + b).1,
        ),
    decreases a.len(),
{
    if a.len() >= 2 && a.len() >= 2 + prefix_len(a[0], a[1]) {
        let end = 2 + prefix_len(a[0], a[1]);
        let a2 = a.subrange(end as int, a.len() as int);
        let ab = a + b;
        assert(ab[0] == a[0] && ab[1] == a[1]);
        assert(ab.subrange(end as int, ab.len() as int) =~= a2 + b);
        assert(ab.subrange(2, end as int) =~= a.subrange(2, end as int));
        lemma_split_append(a2, b);
        let r = split_frames(split_frames(a2).1 + b);
        assert(seq![a.subrange(2, end as int)] + (split_frames(a2).0 + r.0) =~= (seq![
            a.subrange(2, end as int),
        ] + split_frames(a2).0) + r.0);
    } else {
        assert(split_frames(a).1 + b =~= a + b);
        assert(Seq::<Seq<u8>>::empty() + split_frames(a + b).0 =~= split_frames(a + b).0);
    }
}

/// Chunk-boundary independence: handing a stream to a fresh assembler in
/// chunks, in order, yields the same payloads and leaves the same bytes
/// buffered as handing it over all at once.
pub proof fn lemma_chunk_independence(chunks: Seq<Seq<u8>>)
    ensures
        feed_all(Seq::empty(), chunks) == split_frames(flatten(chunks)),
    decreases chunks.len(),
{
    if chunks.len() == 0 {
        assert(split_frames(Seq::<u8>::empty()) == (Seq::<Seq<u8>>::empty(), Seq::<u8>::empty()));
    } else {
        let init = chunks.drop_last();
        lemma_chunk_independence(init);
        lemma_split_append(flatten(init), chunks.last());
    }
}

/// A stream of whole frames splits into exactly its payloads, with nothing left over.
pub proof fn lemma_split_stream(ps: Seq<Seq<u8>>)
    requires
        forall|i: int| 0 <= i < ps.len() ==> #[trigger] ps[i].len() <= MAX_PACKET,
    ensures
        split_frames(stream_of(ps)) == (ps, Seq::<u8>::empty()),
    decreases ps.len(),
{
    if ps.len() == 0 {
        assert(split_frames(Seq::<u8>::empty()) == (Seq::<Seq<u8>>::empty(), Seq::<u8>::empty()));
    } else {
        let init = ps.drop_last();
        let p = ps.last();
        assert(p.len() <= MAX_PACKET);
        lemma_split_stream(init);
        lemma_split_append(stream_of(init), frame_of(p));
        lemma_split_one(p);
        assert(Seq::<u8>::empty() + frame_of(p) =~= frame_of(p));
        assert(init + seq![p] =~= ps);
    }
}

/// A single frame splits into its payload.
pub proof fn lemma_split_one(p: Seq<u8>)
    requires
        p.len() <= MAX_PACKET,
    ensures
        split_frames(frame_of(p)) == (seq![p], Seq::<u8>::empty()),
{
    let f = frame_of(p);
    let n = p.len();
    assert(prefix_len((n % 256) as u8, (n / 256) as u8) == n) by {
        assert(((n % 256) as u8) as nat == n % 256);
        assert(((n / 256) as u8) as nat == n / 256);
    }
    assert(f.subrange(2, f.len() as int) =~= p);
    assert(f.subrange(f.len() as int, f.len() as int) =~= Seq::<u8>::empty());
    assert(split_frames(Seq::<u8>::empty()) == (Seq::<Seq<u8>>::empty(), Seq::<u8>::empty()));
    assert(seq![p] + Seq::<Seq<u8>>::empty() =~= seq![p]);
}

} // verus!
