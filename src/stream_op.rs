use vstd::prelude::*;

verus! {

/// The one-byte tag that opens a stream: a kind of record, or a compression mode.
#[derive(Debug, Clone, Copy, PartialEq, Eq, Structural)]
pub enum StreamOp {
    Account,
    Transaction,
    Entry,
    Block,
    SlotStatus,
    UseLz4Compression,
    UseZstdCompression,
    UseNoCompression,
}

impl StreamOp {
    pub open spec fn spec_code(self) -> u8 {
        match self {
            StreamOp::Account => 0,
            StreamOp::Transaction => 1,
            StreamOp::Entry => 2,
            StreamOp::Block => 3,
            StreamOp::SlotStatus => 4,
            StreamOp::UseLz4Compression => 5,
            StreamOp::UseZstdCompression => 6,
            StreamOp::UseNoCompression => 7,
        }
    }

    pub open spec fn spec_from_code(b: u8) -> Option<StreamOp> {
        if b == 0 {
            Some(StreamOp::Account)
        } else if b == 1 {
            Some(StreamOp::Transaction)
        } else if b == 2 {
            Some(StreamOp::Entry)
        } else if b == 3 {
            Some(StreamOp::Block)
        } else if b == 4 {
            Some(StreamOp::SlotStatus)
        } else if b == 5 {
            Some(StreamOp::UseLz4Compression)
        } else if b == 6 {
            Some(StreamOp::UseZstdCompression)
        } else if b == 7 {
            Some(StreamOp::UseNoCompression)
        } else {
            None
        }
    }

    /// The five tags that name a kind of record.
    pub open spec fn is_kind(self) -> bool {
        self.spec_code() < 5
    }

    pub fn code(self) -> (r: u8)
        ensures
            r == self.spec_code(),
    {
        match self {
            StreamOp::Account => 0,
            StreamOp::Transaction => 1,
            StreamOp::Entry => 2,
            StreamOp::Block => 3,
            StreamOp::SlotStatus => 4,
            StreamOp::UseLz4Compression => 5,
            StreamOp::UseZstdCompression => 6,
            StreamOp::UseNoCompression => 7,
        }
    }

    pub fn from_code(b: u8) -> (r: Option<StreamOp>)
        ensures
            r == Self::spec_from_code(b),
    {
        match b {
            0 => Some(StreamOp::Account),
            1 => Some(StreamOp::Transaction),
            2 => Some(StreamOp::Entry),
            3 => Some(StreamOp::Block),
            4 => Some(StreamOp::SlotStatus),
            5 => Some(StreamOp::UseLz4Compression),
            6 => Some(StreamOp::UseZstdCompression),
            7 => Some(StreamOp::UseNoCompression),
            _ => None,
        }
    }

    pub fn is_record_kind(self) -> (r: bool)
        ensures
            r == self.is_kind(),
    {
        self.code() < 5
    }
}

/// Every tag reads back from its byte, and only the bytes 0 to 7 are tags.
pub proof fn lemma_code_round_trip(op: StreamOp, b: u8)
    ensures
        StreamOp::spec_from_code(op.spec_code()) == Some(op),
        StreamOp::spec_from_code(b) is Some <==> b < 8,
        StreamOp::spec_from_code(b) is Some ==> StreamOp::spec_from_code(b)->Some_0.spec_code()
            == b,
{
}

/// How the records of one stream are compressed on the wire.
#[derive(Debug, Clone, Copy, PartialEq, Eq, Structural)]
pub enum Compression {
    Lz4,
    Zstd,
    Uncompressed,
}

impl Compression {
    pub open spec fn spec_mode_op(self) -> StreamOp {
        match self {
            Compression::Lz4 => StreamOp::UseLz4Compression,
            Compression::Zstd => StreamOp::UseZstdCompression,
            Compression::Uncompressed => StreamOp::UseNoCompression,
        }
    }

    pub open spec fn spec_from_mode(op: StreamOp) -> Option<Compression> {
        match op {
            StreamOp::UseLz4Compression => Some(Compression::Lz4),
            StreamOp::UseZstdCompression => Some(Compression::Zstd),
            StreamOp::UseNoCompression => Some(Compression::Uncompressed),
            _ => None,
        }
    }

    /// The tag that announces this mode.
    pub fn mode_op(self) -> (r: StreamOp)
        ensures
            r == self.spec_mode_op(),
    {
        match self {
            Compression::Lz4 => StreamOp::UseLz4Compression,
            Compression::Zstd => StreamOp::UseZstdCompression,
            Compression::Uncompressed => StreamOp::UseNoCompression,
        }
    }

    pub fn from_mode(op: StreamOp) -> (r: Option<Compression>)
        ensures
            r == Self::spec_from_mode(op),
    {
        match op {
            StreamOp::UseLz4Compression => Some(Compression::Lz4),
            StreamOp::UseZstdCompression => Some(Compression::Zstd),
            StreamOp::UseNoCompression => Some(Compression::Uncompressed),
            _ => None,
        }
    }
}

} // verus!
