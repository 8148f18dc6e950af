use vstd::prelude::*;

verus! {

/// The outside type std::io::Error, carried in `TransportError::Io`. Carried through, never looked into.
#[verifier::external_type_specification]
#[verifier::external_body]
pub struct ExIoError(std::io::Error);

/// The outside type pem::PemError, what pem::parse returns on malformed text. Carried through, never looked into.
#[verifier::external_type_specification]
#[verifier::external_body]
pub struct ExPemError(pem::PemError);

/// The outside type rustls::Error, carried in `TransportError::Rustls`. Carried through, never looked into.
#[verifier::external_type_specification]
#[verifier::external_body]
pub struct ExRustlsError(rustls::Error);

/// The outside type quinn::ConnectionError, carried in `TransportError::QuinnConnection`. Carried through, never looked into.
#[verifier::external_type_specification]
#[verifier::external_body]
pub struct ExConnectionError(quinn::ConnectionError);

/// The outside type quinn::ConnectError, carried in `TransportError::QuinnConnectError`. Carried through, never looked into.
#[verifier::external_type_specification]
#[verifier::external_body]
pub struct ExConnectError(quinn::ConnectError);

/// The outside type bincode::ErrorKind, boxed in `TransportError::Bincode`. Carried through, never looked into.
#[verifier::external_type_specification]
#[verifier::external_body]
pub struct ExBincodeErrorKind(bincode::ErrorKind);

/// What can go wrong in the transport, at setup or on a stream.
#[derive(Debug)]
pub enum TransportError {
    MissingKeyPath,
    Io(std::io::Error),
    PemParse(pem::PemError),
    Rustls(rustls::Error),
    QuinnConnection(quinn::ConnectionError),
    QuinnConnectError(quinn::ConnectError),
    Bincode(Box<bincode::ErrorKind>),
    InvalidStreamOp(u8),
    /// A record body longer than a `u32` length prefix can announce.
    FrameTooLarge(usize),
}

pub type TransportResult<T> = Result<T, TransportError>;

} // verus!
