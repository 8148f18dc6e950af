use ample_transport::demux::StreamDemux;
use ample_transport::pump::{BusEvent, PumpAction, StreamPump};
use ample_transport::stream_op::{Compression, StreamOp};
use tokio::io::{AsyncReadExt, AsyncWriteExt};

fn records() -> Vec<Vec<u8>> {
    (1..=3u8)
        .map(|i| {
            let mut r = vec![i; 32];
            r.extend_from_slice(&(i as u64).to_le_bytes());
            r.extend(std::iter::repeat(0u8).take(200));
            r
        })
        .collect()
}

fn pumped(compression: Compression, bodies: &[Vec<u8>]) -> (Vec<u8>, Vec<u8>, u64) {
    let mut pump = StreamPump::new(StreamOp::Account, compression);
    let header = pump.header().to_vec();
    let mut raw = Vec::new();
    let mut body_bytes = 0u64;
    for b in bodies {
        match pump.on_event(BusEvent::Record(b.clone())) {
            PumpAction::Send { frame, body_len } => {
                raw.extend(frame);
                body_bytes += body_len as u64;
            }
            _ => panic!("a record must be sent"),
        }
    }
    (header, raw, body_bytes)
}

fn compress(compression: Compression, raw: &[u8]) -> Vec<u8> {
    let rt = tokio::runtime::Builder::new_current_thread().build().unwrap();
    rt.block_on(async {
        match compression {
            Compression::Lz4 => {
                let mut enc = async_compression::tokio::write::Lz4Encoder::new(Vec::new());
                enc.write_all(raw).await.unwrap();
                enc.shutdown().await.unwrap();
                enc.into_inner()
            }
            Compression::Zstd => {
                let mut enc = async_compression::tokio::write::ZstdEncoder::new(Vec::new());
                enc.write_all(raw).await.unwrap();
                enc.shutdown().await.unwrap();
                enc.into_inner()
            }
            Compression::Uncompressed => raw.to_vec(),
        }
    })
}

fn decompress(compression: Compression, wire: &[u8]) -> Vec<u8> {
    let rt = tokio::runtime::Builder::new_current_thread().build().unwrap();
    rt.block_on(async {
        let mut out = Vec::new();
        match compression {
            Compression::Lz4 => {
                async_compression::tokio::bufread::Lz4Decoder::new(wire).read_to_end(&mut out).await.unwrap();
            }
            Compression::Zstd => {
                async_compression::tokio::bufread::ZstdDecoder::new(wire).read_to_end(&mut out).await.unwrap();
            }
            Compression::Uncompressed => out.extend_from_slice(wire),
        }
        out
    })
}

fn round_trip(compression: Compression) -> (Vec<Vec<u8>>, usize, u64) {
    let bodies = records();
    let (header, raw, body_bytes) = pumped(compression, &bodies);
    let wire = compress(compression, &raw);
    let mut demux = StreamDemux::open(header[0], header[1]).unwrap();
    assert_eq!(demux.compression(), compression);
    let plain = decompress(demux.compression(), &wire);
    let mut got = Vec::new();
    for piece in plain.chunks(7) {
        got.extend(demux.on_bytes(piece));
    }
    assert!(!demux.ended_mid_frame());
    (got, wire.len(), body_bytes)
}

#[test]
fn lz4_stream_carries_records_and_shrinks_them() {
    let (got, compressed, body_bytes) = round_trip(Compression::Lz4);
    assert_eq!(got, records());
    assert!((compressed as u64) < body_bytes);
}

#[test]
fn zstd_stream_carries_records() {
    let (got, compressed, body_bytes) = round_trip(Compression::Zstd);
    assert_eq!(got, records());
    assert!((compressed as u64) < body_bytes);
}

#[test]
fn uncompressed_stream_carries_records() {
    let (got, wire_len, body_bytes) = round_trip(Compression::Uncompressed);
    assert_eq!(got, records());
    assert_eq!(wire_len as u64, body_bytes + 4 * 3);
}
