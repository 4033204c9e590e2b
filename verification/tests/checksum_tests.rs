use envhive::checksum::{algo_name, file_hash, parse, verify_file, HashAlgo};
use envhive::error::EnvHiveErrorKind;

#[test]
fn test_parse() {
    assert!(parse("none").is_none());
    assert!(parse("").is_none());
    let c = parse("sha256:abcdef").unwrap();
    assert_eq!(c.algo, HashAlgo::Sha256);
    let c2 = parse("sha512:xyz").unwrap();
    assert_eq!(c2.algo, HashAlgo::Sha512);
    let s = "a".repeat(64);
    assert_eq!(parse(&s).unwrap().algo, HashAlgo::Sha256);
}

#[test]
fn parse_details() {
    let c = parse("  MD5 : ABCdef  ").unwrap();
    assert_eq!(c.algo, HashAlgo::Md5);
    assert_eq!(c.digest, "abcdef");
    assert!(parse("NONE").is_none());
    assert!(parse("crc32:abcd").is_none());
    assert!(parse(&"g".repeat(64)).is_none());
    assert!(parse(&"a".repeat(63)).is_none());
    assert_eq!(parse(&"AB".repeat(32)).unwrap().digest, "ab".repeat(32));
}

#[test]
fn algo_names_and_lookup() {
    for a in [HashAlgo::Sha256, HashAlgo::Sha512, HashAlgo::Sha1, HashAlgo::Md5] {
        assert_eq!(HashAlgo::from_str(algo_name(a)), Some(a));
    }
    assert_eq!(HashAlgo::from_str(" SHA1 "), Some(HashAlgo::Sha1));
    assert_eq!(HashAlgo::from_str("sha3"), None);
}

#[test]
fn file_hash_known_digests() {
    assert_eq!(file_hash(b"abc", HashAlgo::Sha256), "ba7816bf8f01cfea414140de5dae2223b00361a396177a9cb410ff61f20015ad");
    assert_eq!(file_hash(b"abc", HashAlgo::Md5), "900150983cd24fb0d6963f7d28e17f72");
    assert_eq!(file_hash(b"abc", HashAlgo::Sha1), "a9993e364706816aba3e25717850c26c9cd0d89d");
    assert_eq!(
        file_hash(b"abc", HashAlgo::Sha512),
        "ddaf35a193617abacc417349ae20413112e6fa4e89a97ea20a9eeee64b55d39a2192992a274fc1a836ba3c23a3feebbd454d4423643ce80e2a9ac94fa54ca49f"
    );
}

#[test]
fn verify_file_accepts_and_rejects() {
    assert!(verify_file("a.zip", b"abc", "none").is_ok());
    assert!(verify_file("a.zip", b"abc", "md5:900150983CD24FB0D6963F7D28E17F72").is_ok());
    assert!(verify_file("a.zip", b"abc", "ba7816bf8f01cfea414140de5dae2223b00361a396177a9cb410ff61f20015ad").is_ok());
    let e = verify_file("a.zip", b"abd", "md5:900150983cd24fb0d6963f7d28e17f72").unwrap_err();
    assert_eq!(e.kind, EnvHiveErrorKind::Checksum);
    assert_eq!(e.code(), "CHECKSUM_MISMATCH");
    assert!(e.message.starts_with("a.zip 校验失败：期望 md5:900150983cd24fb0d6963f7d28e17f72, 实际 md5:"));
}

#[test]
fn algorithm_names_read_back() {
    for a in [HashAlgo::Sha256, HashAlgo::Sha512, HashAlgo::Sha1, HashAlgo::Md5] {
        let n = algo_name(a);
        assert_eq!(HashAlgo::from_str(n), Some(a));
        assert_eq!(HashAlgo::from_str(&format!(" {} ", n.to_ascii_uppercase())), Some(a));
    }
    assert_eq!(HashAlgo::from_str("sha-256"), None);
}

#[test]
fn error_codes_are_distinct() {
    let kinds = [
        EnvHiveErrorKind::Config,
        EnvHiveErrorKind::Io,
        EnvHiveErrorKind::Network,
        EnvHiveErrorKind::Checksum,
        EnvHiveErrorKind::Decompress,
        EnvHiveErrorKind::ToolNotFound,
        EnvHiveErrorKind::VersionNotFound,
        EnvHiveErrorKind::VersionResolve,
        EnvHiveErrorKind::NotInstalled,
        EnvHiveErrorKind::Install,
        EnvHiveErrorKind::Unsupported,
        EnvHiveErrorKind::Link,
        EnvHiveErrorKind::Registry,
        EnvHiveErrorKind::Cancelled,
        EnvHiveErrorKind::Internal,
    ];
    for (i, a) in kinds.iter().enumerate() {
        for b in &kinds[i + 1..] {
            assert_ne!(a.code(), b.code());
        }
    }
    assert_eq!(EnvHiveErrorKind::Checksum.code(), "CHECKSUM_MISMATCH");
    assert_eq!(EnvHiveErrorKind::VersionResolve.code(), "VERSION_RESOLVE_ERROR");
}
