use alpac::hash::{digest, DigestKind, Verdict};
use alpac::source::FetchSession;
use alpac::{Error, Source, Verifier};

fn hex_string(bytes: &[u8]) -> String {
    String::from_utf8(alpac::hex::hex_encode(bytes)).unwrap()
}

#[test]
fn digest_known_vectors() {
    let cases: Vec<(DigestKind, &str)> = vec![
        (DigestKind::Md5, "900150983cd24fb0d6963f7d28e17f72"),
        (DigestKind::Sha1, "a9993e364706816aba3e25717850c26c9cd0d89d"),
        (
            DigestKind::Sha224,
            "23097d223405d8228642a477bda255b32aadbce4bda0b3f7e36c9da7",
        ),
        (
            DigestKind::Sha256,
            "ba7816bf8f01cfea414140de5dae2223b00361a396177a9cb410ff61f20015ad",
        ),
        (
            DigestKind::Sha384,
            "cb00753f45a35e8bb5a03d699ac65007272c32ab0eded1631a8b605a43ff5bed8086072ba1e7cc2358baeca134c825a7",
        ),
        (
            DigestKind::Sha512,
            "ddaf35a193617abacc417349ae20413112e6fa4e89a97ea20a9eeee64b55d39a2192992a274fc1a836ba3c23a3feebbd454d4423643ce80e2a9ac94fa54ca49f",
        ),
    ];
    for (kind, expected) in cases {
        let d = digest(kind, b"abc");
        assert_eq!(hex_string(&d), expected);
        assert_eq!(hex_string(&d), hex::encode(&d));
    }
}

#[test]
fn round_trip_verifies() {
    let payload = b"arbitrary bytes \x00\x01\xfe stream";
    for kind in [
        DigestKind::Md5,
        DigestKind::Sha1,
        DigestKind::Sha224,
        DigestKind::Sha256,
        DigestKind::Sha384,
        DigestKind::Sha512,
    ] {
        let d = digest(kind, payload);
        let expected = vec![(kind, hex_string(&d))];
        let mut v = Verifier::begin(&expected).unwrap();
        v.update(payload);
        assert_eq!(v.finish(), Verdict::Verified);
    }
}

#[test]
fn chunking_is_invariant() {
    let payload = b"the quick brown fox jumps over the lazy dog";
    let d = digest(DigestKind::Sha256, payload);
    let expected = vec![(DigestKind::Sha256, hex_string(&d))];

    let mut whole = Verifier::begin(&expected).unwrap();
    whole.update(payload);
    assert_eq!(whole.finish(), Verdict::Verified);

    let mut chunked = Verifier::begin(&expected).unwrap();
    chunked.update(&payload[..1]);
    chunked.update(&payload[1..7]);
    chunked.update(&[]);
    chunked.update(&payload[7..40]);
    chunked.update(&payload[40..]);
    assert_eq!(chunked.finish(), Verdict::Verified);
}

#[test]
fn vacuous_acceptance() {
    let expected: Vec<(DigestKind, String)> = Vec::new();
    let mut v = Verifier::begin(&expected).unwrap();
    v.update(b"any payload at all");
    assert_eq!(v.finish(), Verdict::Verified);

    let no_digests = Source::new("https://example.org/a/b.tar".to_string(), None, Vec::new());
    let mut s = FetchSession::begin_fetch(&no_digests).unwrap();
    s.push_chunk(b"whatever the transport delivers");
    assert!(s.complete(true).is_ok());
}

#[test]
fn one_mismatch_fails_all() {
    let payload = b"conjunction of digests";
    let good_md5 = hex_string(&digest(DigestKind::Md5, payload));
    let good_sha1 = hex_string(&digest(DigestKind::Sha1, payload));
    let bad_sha256 = hex_string(&digest(DigestKind::Sha256, b"different payload"));

    let expected = vec![
        (DigestKind::Md5, good_md5.clone()),
        (DigestKind::Sha256, bad_sha256),
        (DigestKind::Sha1, good_sha1.clone()),
    ];
    let mut v = Verifier::begin(&expected).unwrap();
    v.update(payload);
    assert_eq!(v.finish(), Verdict::Mismatch);

    let all_good = vec![(DigestKind::Md5, good_md5), (DigestKind::Sha1, good_sha1)];
    let mut v = Verifier::begin(&all_good).unwrap();
    v.update(payload);
    assert_eq!(v.finish(), Verdict::Verified);
}

fn begin_error(expected: &Vec<(DigestKind, String)>) -> Error {
    match Verifier::begin(expected) {
        Ok(_) => panic!("expected begin to reject the digests"),
        Err(e) => e,
    }
}

#[test]
fn malformed_digest_rejected_at_begin() {
    // Not hex at all.
    let expected = vec![(DigestKind::Md5, "zz150983cd24fb0d6963f7d28e17f72x".to_string())];
    assert_eq!(begin_error(&expected), Error::MalformedDigest);

    // Valid hex digits, odd length.
    let expected = vec![(DigestKind::Md5, "abc".to_string())];
    assert_eq!(begin_error(&expected), Error::MalformedDigest);

    // Valid hex, wrong length for the kind.
    let expected = vec![(DigestKind::Sha256, "deadbeef".to_string())];
    assert_eq!(begin_error(&expected), Error::MalformedDigest);

    // A mixed-case value of the right shape is accepted.
    let expected = vec![(
        DigestKind::Md5,
        "900150983CD24fb0d6963f7d28e17F72".to_string(),
    )];
    assert!(Verifier::begin(&expected).is_ok());
}

#[test]
fn fetch_session_outcomes() {
    let payload = b"artifact contents";
    let good = hex_string(&digest(DigestKind::Sha256, payload));
    let bad = hex_string(&digest(DigestKind::Sha256, b"corrupted"));

    let src = Source::new(
        "https://example.org/pkg/a.tar.gz".to_string(),
        Some(payload.len() as u64),
        vec![(DigestKind::Sha256, good.clone())],
    );
    let mut s = FetchSession::begin_fetch(&src).unwrap();
    s.push_chunk(&payload[..5]);
    s.push_chunk(&payload[5..]);
    assert_eq!(s.complete(true).unwrap(), payload.to_vec());

    let src_bad = Source::new(
        "https://example.org/pkg/a.tar.gz".to_string(),
        None,
        vec![(DigestKind::Sha256, bad)],
    );
    let mut s = FetchSession::begin_fetch(&src_bad).unwrap();
    s.push_chunk(payload);
    assert_eq!(s.complete(true).unwrap_err(), Error::IntegrityMismatch);

    let src_ok = Source::new(
        "https://example.org/pkg/a.tar.gz".to_string(),
        None,
        vec![(DigestKind::Sha256, good)],
    );
    let mut s = FetchSession::begin_fetch(&src_ok).unwrap();
    s.push_chunk(payload);
    assert_eq!(s.complete(false).unwrap_err(), Error::TransportFailure);

    let src_malformed = Source::new(
        "https://example.org/pkg/a.tar.gz".to_string(),
        None,
        vec![(DigestKind::Sha256, "nothex".to_string())],
    );
    match FetchSession::begin_fetch(&src_malformed) {
        Ok(_) => panic!("expected the malformed digest to be rejected"),
        Err(e) => assert_eq!(e, Error::MalformedDigest),
    }
}
