use vstd::prelude::*;
use crate::stream_op::{StreamOp, Compression};
use crate::error::TransportError;

verus! {

/// The four bytes of `n`, least significant first.
pub open spec fn le_u32_bytes(n: nat) -> Seq<u8> {
    seq![
        (n % 256) as u8,
        (n / 256 % 256) as u8,
        (n / 65536 % 256) as u8,
        (n / 16777216 % 256) as u8,
    ]
}

/// The number that the first four bytes of `s` give, least significant first.
pub open spec fn read_le_u32(s: Seq<u8>) -> nat {
    s[0] as nat + 256 * (s[1] as nat) + 65536 * (s[2] as nat) + 16777216 * (s[3] as nat)
}

/// One record on the wire: its length as a little-endian `u32`, then its bytes.
pub open spec fn frame_of(body: Seq<u8>) -> Seq<u8> {
    le_u32_bytes(body.len()) + body
}

/// The frames of a sequence of bodies, one after the other.
pub open spec fn frames_of(bodies: Seq<Seq<u8>>) -> Seq<u8>
    decreases bodies.len(),
{
    if bodies.len() == 0 {
        Seq::empty()
    } else {
        frame_of(bodies[0]) + frames_of(bodies.drop_first())
    }
}

/// Whether `s` begins with a whole frame.
pub open spec fn has_whole_frame(s: Seq<u8>) -> bool {
    s.len() >= 4 && s.len() >= 4 + read_le_u32(s)
}

/// The bodies of the whole frames at the front of `s`, and the bytes after them.
pub open spec fn split_frames(s: Seq<u8>) -> (Seq<Seq<u8>>, Seq<u8>)
    decreases s.len(),
{
    if has_whole_frame(s) {
        let n = read_le_u32(s) as int;
        let rest = split_frames(s.subrange(4 + n, s.len() as int));
        (seq![s.subrange(4, 4 + n)] + rest.0, rest.1)
    } else {
        (Seq::empty(), s)
    }
}

pub open spec fn bodies_view(v: Seq<Vec<u8>>) -> Seq<Seq<u8>> {
    v.map_values(|b: Vec<u8>| b@)
}

proof fn lemma_le_u32_reads_back(n: nat)
    requires
        n < 0x1_0000_0000,
    ensures
        read_le_u32(le_u32_bytes(n)) == n,
        le_u32_bytes(n).len() == 4,
{
    let b = le_u32_bytes(n);
    let q1 = n / 256;
    let q2 = n / 65536;
    let q3 = n / 16777216;
    assert(b[0] as nat == n % 256);
    assert(b[1] as nat == q1 % 256);
    assert(b[2] as nat == q2 % 256);
    assert(q3 < 256) by (nonlinear_arith)
        requires
            n < 0x1_0000_0000,
            q3 == n / 16777216,
    ;
    assert(b[3] as nat == q3);
    assert(n == (n % 256) + 256 * (q1 % 256) + 65536 * (q2 % 256) + 16777216 * q3)
        by (nonlinear_arith)
        requires
            q1 == n / 256,
            q2 == n / 65536,
            q3 == n / 16777216,
    ;
}

/// A frame is read back whole, and what follows it is left as it was.
proof fn lemma_split_frame_then(body: Seq<u8>, tail: Seq<u8>)
    requires
        body.len() < 0x1_0000_0000,
    ensures
        split_frames(frame_of(body) + tail) == (
            seq![body] + split_frames(tail).0,
            split_frames(tail).1,
        ),
{
    let s = frame_of(body) + tail;
    lemma_le_u32_reads_back(body.len());
    assert(s.subrange(0, 4) =~= le_u32_bytes(body.len()));
    assert(read_le_u32(s) == read_le_u32(le_u32_bytes(body.len())));
    assert(has_whole_frame(s));
    let n = body.len() as int;
    assert(s.subrange(4, 4 + n) =~= body);
    assert(s.subrange(4 + n, s.len() as int) =~= tail);
}

/// Decoding what was encoded gives back the bodies, in order, and then
/// whatever followed them.
pub proof fn lemma_frames_round_trip(bodies: Seq<Seq<u8>>, tail: Seq<u8>)
    requires
        forall|i: int| 0 <= i < bodies.len() ==> (#[trigger] bodies[i]).len() < 0x1_0000_0000,
    ensures
        split_frames(frames_of(bodies) + tail) == (
            bodies + split_frames(tail).0,
            split_frames(tail).1,
        ),
    decreases bodies.len(),
{
    if bodies.len() == 0 {
        assert(frames_of(bodies) + tail =~= tail);
        assert(bodies + split_frames(tail).0 =~= split_frames(tail).0);
    } else {
        let rest = bodies.drop_first();
        assert forall|i: int| 0 <= i < rest.len() implies (#[trigger] rest[i]).len()
            < 0x1_0000_0000 by {
            assert(rest[i] == bodies[i + 1]);
        }
        lemma_frames_round_trip(rest, tail);
        assert(frames_of(bodies) + tail =~= frame_of(bodies[0]) + (frames_of(rest) + tail));
        assert(bodies[0].len() < 0x1_0000_0000);
        lemma_split_frame_then(bodies[0], frames_of(rest) + tail);
        assert(seq![bodies[0]] + (rest + split_frames(tail).0) =~= bodies + split_frames(
            tail,
        ).0);
    }
}

/// Bytes that arrive in two pieces decode to the frames of the whole: the frames
/// of the first piece, then those of its leftover joined to the second.
pub proof fn lemma_split_frames_append(s: Seq<u8>, t: Seq<u8>)
    ensures
        split_frames(s + t) == (
            split_frames(s).0 + split_frames(split_frames(s).1 + t).0,
            split_frames(split_frames(s).1 + t).1,
        ),
    decreases s.len(),
{
    if has_whole_frame(s) {
        let n = read_le_u32(s) as int;
        let st = s + t;
        assert(st.subrange(0, 4) =~= s.subrange(0, 4));
        assert(read_le_u32(st) == read_le_u32(s));
        assert(has_whole_frame(st));
        let s2 = s.subrange(4 + n, s.len() as int);
        assert(st.subrange(4, 4 + n) =~= s.subrange(4, 4 + n));
        assert(st.subrange(4 + n, st.len() as int) =~= s2 + t);
        lemma_split_frames_append(s2, t);
        assert(split_frames(s).1 == split_frames(s2).1);
        assert(seq![s.subrange(4, 4 + n)] + split_frames(s2).0 + split_frames(
            split_frames(s2).1 + t,
        ).0 =~= seq![s.subrange(4, 4 + n)] + (split_frames(s2).0 + split_frames(
            split_frames(s2).1 + t,
        ).0));
    } else {
        assert(split_frames(s).0 + split_frames(s + t).0 =~= split_frames(s + t).0);
    }
}

/// The frame of one record body: its length as a little-endian `u32`, then the body.
pub fn encode_frame(body: &[u8]) -> (r: Vec<u8>)
    requires
        body@.len() < 0x1_0000_0000,
    ensures
        r@ == frame_of(body@),
{
    let n: u32 = body.len() as u32;
    let mut out: Vec<u8> = Vec::new();
    out.push((n % 256) as u8);
    out.push((n / 256 % 256) as u8);
    out.push((n / 65536 % 256) as u8);
    out.push((n / 16777216 % 256) as u8);
    assert(out@ =~= le_u32_bytes(body@.len()));
    let mut i: usize = 0;
    while i < body.len()
        invariant
            0 <= i <= body@.len(),
            out@ =~= le_u32_bytes(body@.len()) + body@.subrange(0, i as int),
        decreases body@.len() - i,
    {
        out.push(body[i]);
        i = i + 1;
    }
    assert(body@.subrange(0, body@.len() as int) =~= body@);
    out
}

/// Reassembles frames from a byte stream that arrives in pieces of any size.
pub struct FrameDecoder {
    pending: Vec<u8>,
}

impl View for FrameDecoder {
    type V = Seq<u8>;

    /// The bytes received that do not yet make a whole frame.
    closed spec fn view(&self) -> Seq<u8> {
        self.pending@
    }
}

fn copy_range(src: &Vec<u8>, from: usize, to: usize) -> (r: Vec<u8>)
    requires
        from <= to <= src@.len(),
    ensures
        r@ == src@.subrange(from as int, to as int),
{
    let mut out: Vec<u8> = Vec::new();
    let mut i: usize = from;
    while i < to
        invariant
            from <= i <= to,
            to <= src@.len(),
            out@ =~= src@.subrange(from as int, i as int),
        decreases to - i,
    {
        out.push(src[i]);
        i = i + 1;
    }
    out
}

impl FrameDecoder {
    pub fn new() -> (r: FrameDecoder)
        ensures
            r@ == Seq::<u8>::empty(),
    {
        FrameDecoder { pending: Vec::new() }
    }

    /// Takes the next bytes of the stream and returns the bodies of the frames
    /// that they complete, in order.
    pub fn push(&mut self, input: &[u8]) -> (frames: Vec<Vec<u8>>)
        ensures
            bodies_view(frames@) == split_frames(old(self)@ + input@).0,
            final(self)@ == split_frames(old(self)@ + input@).1,
    {
        let ghost whole = self.pending@ + input@;
        let mut i: usize = 0;
        while i < input.len()
            invariant
                0 <= i <= input@.len(),
                self.pending@ =~= old(self)@ + input@.subrange(0, i as int),
            decreases input@.len() - i,
        {
            self.pending.push(input[i]);
            i = i + 1;
        }
        assert(input@.subrange(0, input@.len() as int) =~= input@);
        let mut frames: Vec<Vec<u8>> = Vec::new();
        let mut start: usize = 0;
        assert(whole.subrange(0, whole.len() as int) =~= whole);
        assert(bodies_view(frames@) + split_frames(whole).0 =~= split_frames(whole).0);
        loop
            invariant
                self.pending@ == whole,
                0 <= start <= whole.len(),
                split_frames(whole) == (
                    bodies_view(frames@) + split_frames(whole.subrange(start as int, whole.len() as int)).0,
                    split_frames(whole.subrange(start as int, whole.len() as int)).1,
                ),
            ensures
                self.pending@ == whole,
                0 <= start <= whole.len(),
                split_frames(whole) == (
                    bodies_view(frames@) + split_frames(whole.subrange(start as int, whole.len() as int)).0,
                    split_frames(whole.subrange(start as int, whole.len() as int)).1,
                ),
                !has_whole_frame(whole.subrange(start as int, whole.len() as int)),
            decreases whole.len() - start,
        {
            let ghost rest = whole.subrange(start as int, whole.len() as int);
            let avail: usize = self.pending.len() - start;
            if avail < 4 {
                assert(!has_whole_frame(rest));
                break;
            }
            let n: u64 = self.pending[start] as u64 + 256 * (self.pending[start + 1] as u64)
                + 65536 * (self.pending[start + 2] as u64) + 16777216 * (
            self.pending[start + 3] as u64);
            assert(n == read_le_u32(rest));
            if (avail as u64) - 4 < n {
                assert(!has_whole_frame(rest));
                break;
            }
            let body_end: usize = start + 4 + n as usize;
            let body = copy_range(&self.pending, start + 4, body_end);
            proof {
                assert(has_whole_frame(rest));
                let k = n as int;
                assert(rest.subrange(4, 4 + k) =~= body@);
                assert(rest.subrange(4 + k, rest.len() as int) =~= whole.subrange(
                    body_end as int,
                    whole.len() as int,
                ));
            }
            let ghost before = frames@;
            frames.push(body);
            assert(bodies_view(frames@) =~= bodies_view(before) + seq![body@]);
            assert(bodies_view(before) + seq![body@] + split_frames(
                whole.subrange(body_end as int, whole.len() as int),
            ).0 =~= bodies_view(before) + (seq![body@] + split_frames(
                whole.subrange(body_end as int, whole.len() as int),
            ).0));
            start = body_end;
        }
        let left = copy_range(&self.pending, start, self.pending.len());
        proof {
            let rest = whole.subrange(start as int, whole.len() as int);
            assert(split_frames(rest).0 =~= Seq::<Seq<u8>>::empty());
            assert(bodies_view(frames@) + split_frames(rest).0 =~= bodies_view(frames@));
        }
        self.pending = left;
        frames
    }

    /// The number of bytes held back until their frame is whole.
    pub fn pending_len(&self) -> (r: usize)
        ensures
            r == self@.len(),
    {
        self.pending.len()
    }
}

/// Feeding a stream to the decoder in two pieces yields the frames of the
/// whole stream, with nothing lost or repeated at the cut.
pub proof fn lemma_decoding_ignores_chunking(pending: Seq<u8>, a: Seq<u8>, b: Seq<u8>)
    ensures
        split_frames(pending + a).0 + split_frames(split_frames(pending + a).1 + b).0
            == split_frames(pending + a + b).0,
        split_frames(split_frames(pending + a).1 + b).1 == split_frames(pending + a + b).1,
{
    lemma_split_frames_append(pending + a, b);
}

/// The two bytes that open a stream: the compression mode, then the kind.
pub open spec fn stream_header_bytes(compression: Compression, kind: StreamOp) -> Seq<u8> {
    seq![compression.spec_mode_op().spec_code(), kind.spec_code()]
}

/// What the two opening bytes of a stream announce.
#[derive(Debug, Clone, Copy, PartialEq, Eq, Structural)]
pub struct StreamHeader {
    pub compression: Compression,
    pub kind: StreamOp,
}

pub open spec fn spec_decode_stream_header(mode: u8, kind: u8) -> Result<StreamHeader, TransportError> {
    let m = StreamOp::spec_from_code(mode);
    let k = StreamOp::spec_from_code(kind);
    if m is None || Compression::spec_from_mode(m->Some_0) is None {
        Err(TransportError::InvalidStreamOp(mode))
    } else if k is None || !k->Some_0.is_kind() {
        Err(TransportError::InvalidStreamOp(kind))
    } else {
        Ok(StreamHeader { compression: Compression::spec_from_mode(m->Some_0)->Some_0, kind: k->Some_0 })
    }
}

/// The opening bytes of a stream of `kind` records compressed as `compression`.
pub fn encode_stream_header(compression: Compression, kind: StreamOp) -> (r: [u8; 2])
    ensures
        r@ == stream_header_bytes(compression, kind),
{
    let r = [compression.mode_op().code(), kind.code()];
    assert(r@ =~= stream_header_bytes(compression, kind));
    r
}

/// The compression mode that a stream's first byte announces, if it is one.
pub fn compression_of_mode(mode: u8) -> (r: Option<Compression>)
    ensures
        r == (match StreamOp::spec_from_code(mode) {
            Some(op) => Compression::spec_from_mode(op),
            None => None,
        }),
{
    match StreamOp::from_code(mode) {
        Some(op) => Compression::from_mode(op),
        None => None,
    }
}

/// Reads the opening bytes of a stream. A first byte that is not a compression
/// mode, or a second byte that is not a kind, is refused with that byte.
pub fn decode_stream_header(mode: u8, kind: u8) -> (r: Result<StreamHeader, TransportError>)
    ensures
        r == spec_decode_stream_header(mode, kind),
{
    let compression = match StreamOp::from_code(mode) {
        Some(op) => match Compression::from_mode(op) {
            Some(c) => c,
            None => {
                return Err(TransportError::InvalidStreamOp(mode));
            },
        },
        None => {
            return Err(TransportError::InvalidStreamOp(mode));
        },
    };
    match StreamOp::from_code(kind) {
        Some(op) => {
            if op.is_record_kind() {
                Ok(StreamHeader { compression, kind: op })
            } else {
                Err(TransportError::InvalidStreamOp(kind))
            }
        },
        None => Err(TransportError::InvalidStreamOp(kind)),
    }
}

/// A header that was written is read back as it was.
pub proof fn lemma_stream_header_round_trip(compression: Compression, kind: StreamOp)
    requires
        kind.is_kind(),
    ensures
        spec_decode_stream_header(
            stream_header_bytes(compression, kind)[0],
            stream_header_bytes(compression, kind)[1],
        ) == Ok::<StreamHeader, TransportError>(StreamHeader { compression, kind }),
{
}

} // verus!
