use ample_transport::error::TransportError;
use ample_transport::opts::{TransportOpts, TransportServerConfig};
use ample_transport::stream_op::Compression;

#[test]
fn parses_cert_key_and_name() {
    let o = TransportOpts::parse_from_str("certs/cert.pem:certs/key.pem@proxy.example.com").unwrap();
    assert_eq!(o.cert_path, "certs/cert.pem");
    assert_eq!(o.key_path.as_deref(), Some("certs/key.pem"));
    assert_eq!(o.fqdn, "proxy.example.com");
}

#[test]
fn parses_cert_and_name_without_key() {
    let o = TransportOpts::parse_from_str("cert.pem@host").unwrap();
    assert_eq!(o.cert_path, "cert.pem");
    assert_eq!(o.key_path, None);
    assert_eq!(o.fqdn, "host");
}

#[test]
fn refuses_missing_or_repeated_at() {
    assert!(TransportOpts::parse_from_str("cert.pem").is_none());
    assert!(TransportOpts::parse_from_str("a@b@c").is_none());
    assert!(TransportOpts::parse_from_str("").is_none());
}

#[test]
fn two_colons_keep_only_the_certificate() {
    let o = TransportOpts::parse_from_str("a:b:c@h").unwrap();
    assert_eq!(o.cert_path, "a");
    assert_eq!(o.key_path, None);
    assert_eq!(o.fqdn, "h");
}

#[test]
fn empty_parts_are_kept() {
    let o = TransportOpts::parse_from_str(":@").unwrap();
    assert_eq!(o.cert_path, "");
    assert_eq!(o.key_path.as_deref(), Some(""));
    assert_eq!(o.fqdn, "");
}

#[test]
fn server_needs_a_key_path() {
    let o = TransportOpts::parse_from_str("cert.pem@host").unwrap();
    assert!(matches!(o.require_key_path(), Err(TransportError::MissingKeyPath)));
    let o = TransportOpts::parse_from_str("cert.pem:key.pem@host").unwrap();
    assert_eq!(o.require_key_path().unwrap(), "key.pem");
}

#[test]
fn lz4_is_preferred_over_zstd() {
    let c = |l, z| TransportServerConfig { use_lz4_compression: l, use_zstd_compression: z };
    assert_eq!(c(true, true).compression(), Compression::Lz4);
    assert_eq!(c(true, false).compression(), Compression::Lz4);
    assert_eq!(c(false, true).compression(), Compression::Zstd);
    assert_eq!(c(false, false).compression(), Compression::Uncompressed);
}
