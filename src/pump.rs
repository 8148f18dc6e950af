use vstd::prelude::*;
use crate::stream_op::{StreamOp, Compression};
use crate::error::TransportError;
use crate::frame::{encode_frame, encode_stream_header, frame_of, frames_of, stream_header_bytes};

verus! {

/// The number of streams a connection carries, one per kind.
pub const NUM_EXPECTED_REPLICA_CHANNELS: usize = 5;

/// What a subscriber of a broadcast queue gets on one receive.
pub enum BusEvent {
    /// The serialised bytes of the next record.
    Record(Vec<u8>),
    /// This many records were dropped because the subscriber fell behind.
    Lagged(u64),
    /// The queue has no publisher any more.
    Closed,
}

/// What a stream pump does next.
#[derive(Debug)]
pub enum PumpAction {
    /// Write this frame to the stream and flush; count one message of
    /// `body_len` bytes.
    Send { frame: Vec<u8>, body_len: u32 },
    /// Count this many dropped records, and go on.
    ReportDropped(u64),
    /// End the stream cleanly.
    Stop,
    /// End the stream with this error.
    Fail(TransportError),
}

/// The decisions of the task that drains one broadcast queue into one stream.
pub struct StreamPump {
    kind: StreamOp,
    compression: Compression,
    open: bool,
}

impl StreamPump {
    pub closed spec fn kind(&self) -> StreamOp {
        self.kind
    }

    pub closed spec fn compression(&self) -> Compression {
        self.compression
    }

    /// Whether the stream still takes records.
    pub closed spec fn is_open(&self) -> bool {
        self.open
    }

    pub fn new(kind: StreamOp, compression: Compression) -> (r: Self)
        requires
            kind.is_kind(),
        ensures
            r.kind() == kind,
            r.compression() == compression,
            r.is_open(),
    {
        StreamPump { kind, compression, open: true }
    }

    /// The two bytes written before any record.
    pub fn header(&self) -> (r: [u8; 2])
        ensures
            r@ == stream_header_bytes(self.compression(), self.kind()),
    {
        encode_stream_header(self.compression, self.kind)
    }

    /// The tag of the kind of record this stream carries.
    pub fn stream_kind(&self) -> (r: StreamOp)
        ensures
            r == self.kind(),
    {
        self.kind
    }

    /// How the stream is compressed.
    pub fn stream_compression(&self) -> (r: Compression)
        ensures
            r == self.compression(),
    {
        self.compression
    }

    /// Decides what one receive from the queue leads to. A record is framed
    /// and sent; a lag is counted and passed over; a closed queue, or a record
    /// too long for its length prefix, ends the stream, which then stays ended.
    pub fn on_event(&mut self, event: BusEvent) -> (a: PumpAction)
        ensures
            final(self).kind() == old(self).kind(),
            final(self).compression() == old(self).compression(),
            !old(self).is_open() ==> a is Stop && !final(self).is_open(),
            old(self).is_open() ==> match event {
                BusEvent::Record(body) => if body@.len() < 0x1_0000_0000 {
                    &&& a matches PumpAction::Send { frame, body_len }
                    &&& frame@ == frame_of(body@)
                    &&& body_len == body@.len()
                    &&& final(self).is_open()
                } else {
                    &&& a matches PumpAction::Fail(TransportError::FrameTooLarge(n))
                    &&& n == body@.len()
                    &&& !final(self).is_open()
                },
                BusEvent::Lagged(n) => a matches PumpAction::ReportDropped(m) && m == n
                    && final(self).is_open(),
                BusEvent::Closed => a is Stop && !final(self).is_open(),
            },
    {
        if !self.open {
            return PumpAction::Stop;
        }
        match event {
            BusEvent::Record(body) => {
                if body.len() as u64 >= 0x1_0000_0000 {
                    self.open = false;
                    PumpAction::Fail(TransportError::FrameTooLarge(body.len()))
                } else {
                    let frame = encode_frame(body.as_slice());
                    PumpAction::Send { frame, body_len: body.len() as u32 }
                }
            },
            BusEvent::Lagged(n) => PumpAction::ReportDropped(n),
            BusEvent::Closed => {
                self.open = false;
                PumpAction::Stop
            },
        }
    }
}

/// What an open pump does with one event: a record becomes its frame, a lag
/// becomes a report of as many drops, a closed queue ends the stream.
pub open spec fn step_ok(event: BusEvent, action: PumpAction) -> bool {
    match event {
        BusEvent::Record(body) => {
            &&& body@.len() < 0x1_0000_0000
            &&& action matches PumpAction::Send { frame, body_len }
            &&& frame@ == frame_of(body@)
        },
        BusEvent::Lagged(n) => action matches PumpAction::ReportDropped(m) && m == n,
        BusEvent::Closed => action is Stop,
    }
}

/// The bodies of the records among `events`, in order.
pub open spec fn records_of(events: Seq<BusEvent>) -> Seq<Seq<u8>>
    decreases events.len(),
{
    if events.len() == 0 {
        Seq::empty()
    } else {
        match events[0] {
            BusEvent::Record(b) => seq![b@] + records_of(events.drop_first()),
            _ => records_of(events.drop_first()),
        }
    }
}

/// The records dropped, by the lags among `events`.
pub open spec fn lag_total(events: Seq<BusEvent>) -> nat
    decreases events.len(),
{
    if events.len() == 0 {
        0
    } else {
        match events[0] {
            BusEvent::Lagged(n) => n as nat + lag_total(events.drop_first()),
            _ => lag_total(events.drop_first()),
        }
    }
}

/// The bytes that `actions` write to the stream.
pub open spec fn written(actions: Seq<PumpAction>) -> Seq<u8>
    decreases actions.len(),
{
    if actions.len() == 0 {
        Seq::empty()
    } else {
        match actions[0] {
            PumpAction::Send { frame, body_len } => frame@ + written(actions.drop_first()),
            _ => written(actions.drop_first()),
        }
    }
}

/// The drops that `actions` report.
pub open spec fn reported(actions: Seq<PumpAction>) -> nat
    decreases actions.len(),
{
    if actions.len() == 0 {
        0
    } else {
        match actions[0] {
            PumpAction::ReportDropped(n) => n as nat + reported(actions.drop_first()),
            _ => reported(actions.drop_first()),
        }
    }
}

/// Within one stream nothing is lost in silence and nothing is reordered:
/// for a run of events before the queue closes, a pump writes the frame of
/// each record in the order received, and the drops it reports add up to the
/// lags it was told of.
pub proof fn lemma_pump_accounting(events: Seq<BusEvent>, actions: Seq<PumpAction>)
    requires
        events.len() == actions.len(),
        forall|i: int| 0 <= i < events.len() ==> step_ok(#[trigger] events[i], actions[i]),
        forall|i: int| 0 <= i < events.len() ==> !(#[trigger] events[i] is Closed),
    ensures
        written(actions) == frames_of(records_of(events)),
        reported(actions) == lag_total(events),
        forall|i: int| 0 <= i < records_of(events).len() ==> (#[trigger] records_of(events)[i]).len()
            < 0x1_0000_0000,
    decreases events.len(),
{
    if events.len() > 0 {
        let e = events.drop_first();
        let a = actions.drop_first();
        assert forall|i: int| 0 <= i < e.len() implies step_ok(#[trigger] e[i], a[i]) by {
            assert(e[i] == events[i + 1]);
            assert(a[i] == actions[i + 1]);
            assert(step_ok(events[i + 1], actions[i + 1]));
        }
        assert forall|i: int| 0 <= i < e.len() implies !(#[trigger] e[i] is Closed) by {
            assert(e[i] == events[i + 1]);
            assert(!(events[i + 1] is Closed));
        }
        lemma_pump_accounting(e, a);
        assert(step_ok(events[0], actions[0]));
        assert(!(events[0] is Closed));
        match events[0] {
            BusEvent::Record(b) => {
                let r = seq![b@] + records_of(e);
                assert(r[0] == b@);
                assert(r.drop_first() =~= records_of(e));
                assert forall|i: int| 0 <= i < r.len() implies (#[trigger] r[i]).len()
                    < 0x1_0000_0000 by {
                    if i > 0 {
                        assert(r[i] == records_of(e)[i - 1]);
                    }
                }
            },
            _ => {},
        }
    }
}

/// One stream that the server opens on a connection.
#[derive(Debug, Clone, Copy, PartialEq, Eq, Structural)]
pub struct StreamPlan {
    pub kind: StreamOp,
    /// The send priority; higher goes first, and 0 is the default.
    pub priority: i32,
}

/// The five streams in the order they are opened. Transactions and slot
/// statuses, small and urgent, get a higher priority.
pub open spec fn spec_server_streams() -> Seq<StreamPlan> {
    seq![
        StreamPlan { kind: StreamOp::Account, priority: 0 },
        StreamPlan { kind: StreamOp::Transaction, priority: 5 },
        StreamPlan { kind: StreamOp::Entry, priority: 0 },
        StreamPlan { kind: StreamOp::Block, priority: 0 },
        StreamPlan { kind: StreamOp::SlotStatus, priority: 4 },
    ]
}

pub fn server_streams() -> (r: Vec<StreamPlan>)
    ensures
        r@ == spec_server_streams(),
        r@.len() == NUM_EXPECTED_REPLICA_CHANNELS,
{
    let mut r: Vec<StreamPlan> = Vec::new();
    r.push(StreamPlan { kind: StreamOp::Account, priority: 0 });
    r.push(StreamPlan { kind: StreamOp::Transaction, priority: 5 });
    r.push(StreamPlan { kind: StreamOp::Entry, priority: 0 });
    r.push(StreamPlan { kind: StreamOp::Block, priority: 0 });
    r.push(StreamPlan { kind: StreamOp::SlotStatus, priority: 4 });
    assert(r@ =~= spec_server_streams());
    r
}

/// Every kind has exactly one stream, and each stream carries a kind.
pub proof fn lemma_one_stream_per_kind(op: StreamOp)
    ensures
        op.is_kind() <==> exists|i: int|
            0 <= i < spec_server_streams().len() && (#[trigger] spec_server_streams()[i]).kind == op,
        forall|i: int, j: int|
            0 <= i < spec_server_streams().len() && 0 <= j < spec_server_streams().len() && i != j
                ==> spec_server_streams()[i].kind != spec_server_streams()[j].kind,
{
    let s = spec_server_streams();
    if op.is_kind() {
        let i: int = op.spec_code() as int;
        assert(s[i].kind == op);
    }
}

} // verus!
