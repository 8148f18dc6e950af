use vstd::prelude::*;
use crate::stream_op::{StreamOp, Compression};
use crate::error::TransportError;
use crate::pump::{BusEvent, PumpAction, step_ok, records_of, written, lemma_pump_accounting};
use crate::frame::{
    FrameDecoder, StreamHeader, bodies_view, decode_stream_header, frames_of, split_frames,
    spec_decode_stream_header, stream_header_bytes, lemma_frames_round_trip,
    lemma_stream_header_round_trip,
};

verus! {

/// The receiving end of one stream: its header, then the frames that the
/// bytes after it complete.
pub struct StreamDemux {
    header: StreamHeader,
    decoder: FrameDecoder,
}

impl StreamDemux {
    pub closed spec fn header(&self) -> StreamHeader {
        self.header
    }

    /// The bytes after the header that do not yet make a whole frame.
    pub closed spec fn pending(&self) -> Seq<u8> {
        self.decoder@
    }

    /// Opens the receiving end from the two bytes that begin the stream.
    pub fn open(mode: u8, kind: u8) -> (r: Result<StreamDemux, TransportError>)
        ensures
            match spec_decode_stream_header(mode, kind) {
                Ok(h) => r matches Ok(d) && d.header() == h && d.pending() == Seq::<u8>::empty(),
                Err(e) => r matches Err(e2) && e2 == e,
            },
    {
        let header = decode_stream_header(mode, kind)?;
        Ok(StreamDemux { header, decoder: FrameDecoder::new() })
    }

    /// The kind of record the stream carries.
    pub fn kind(&self) -> (r: StreamOp)
        ensures
            r == self.header().kind,
    {
        self.header.kind
    }

    /// How the stream is compressed.
    pub fn compression(&self) -> (r: Compression)
        ensures
            r == self.header().compression,
    {
        self.header.compression
    }

    /// Takes the next decompressed bytes and returns the record bodies they complete.
    pub fn on_bytes(&mut self, input: &[u8]) -> (frames: Vec<Vec<u8>>)
        ensures
            final(self).header() == old(self).header(),
            bodies_view(frames@) == split_frames(old(self).pending() + input@).0,
            final(self).pending() == split_frames(old(self).pending() + input@).1,
    {
        self.decoder.push(input)
    }

    /// Whether the stream ended inside a frame: a length prefix or a body cut short.
    pub fn ended_mid_frame(&self) -> (r: bool)
        ensures
            r == (self.pending().len() > 0),
    {
        self.decoder.pending_len() > 0
    }
}

/// What a pump writes on a stream, its header and then a frame per body, is
/// read back by the receiving end as the same kind, the same compression and
/// the same bodies in the same order, with nothing left over.
pub proof fn lemma_stream_round_trip(compression: Compression, kind: StreamOp, bodies: Seq<Seq<u8>>)
    requires
        kind.is_kind(),
        forall|i: int| 0 <= i < bodies.len() ==> (#[trigger] bodies[i]).len() < 0x1_0000_0000,
    ensures
        spec_decode_stream_header(
            stream_header_bytes(compression, kind)[0],
            stream_header_bytes(compression, kind)[1],
        ) == Ok::<StreamHeader, TransportError>(StreamHeader { compression, kind }),
        split_frames(frames_of(bodies)) == (bodies, Seq::<u8>::empty()),
{
    lemma_stream_header_round_trip(compression, kind);
    lemma_frames_round_trip(bodies, Seq::empty());
    assert(frames_of(bodies) + Seq::<u8>::empty() =~= frames_of(bodies));
    assert(!crate::frame::has_whole_frame(Seq::<u8>::empty()));
    assert(bodies + Seq::<Seq<u8>>::empty() =~= bodies);
}

/// Whatever a pump writes for a run of events before its queue closes is
/// decoded by the receiving end as exactly the records of that run, in order.
pub proof fn lemma_pumped_records_arrive(events: Seq<BusEvent>, actions: Seq<PumpAction>)
    requires
        events.len() == actions.len(),
        forall|i: int| 0 <= i < events.len() ==> step_ok(#[trigger] events[i], actions[i]),
        forall|i: int| 0 <= i < events.len() ==> !(#[trigger] events[i] is Closed),
    ensures
        split_frames(written(actions)) == (records_of(events), Seq::<u8>::empty()),
{
    lemma_pump_accounting(events, actions);
    let bodies = records_of(events);
    lemma_frames_round_trip(bodies, Seq::empty());
    assert(frames_of(bodies) + Seq::<u8>::empty() =~= frames_of(bodies));
    assert(!crate::frame::has_whole_frame(Seq::<u8>::empty()));
    assert(bodies + Seq::<Seq<u8>>::empty() =~= bodies);
}

} // verus!
