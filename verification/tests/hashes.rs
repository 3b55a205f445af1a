//! Content-hash parsing, rendering, and set semantics.

use molt::hashes::Hashes;

#[test]
fn hashes_test_hash_deserialize() {
    let n = "sha256";
    let v = "54a07c09c586b0e4c619f02a5e94e36619da8e2b053e20f5943";
    let hash = molt::hashes::Hash::parse(&format!("{}:{}", n, v)).unwrap();
    assert_eq!(hash.algorithm, n);
    assert_eq!(hash.digest, v);
}

#[test]
fn hashes_test_hashes_deserialize() {
    let entries = [
        "sha256:54a07c09c586b0e4c619f02a5e94e36619da8e2b053e20f594348c",
        "sha256:40523d2efb60523e113b44602298f0960e900388cf3bb6043f645c",
    ];
    let mut hashes = Hashes::new();
    for e in entries.iter() {
        hashes.add(molt::hashes::Hash::parse(e).unwrap());
    }
    assert_eq!(hashes.len(), 2);
    assert!(hashes.contains(&molt::hashes::Hash::new(
        "sha256",
        "54a07c09c586b0e4c619f02a5e94e36619da8e2b053e20f594348c",
    )));
    assert!(hashes.contains(&molt::hashes::Hash::new(
        "sha256",
        "40523d2efb60523e113b44602298f0960e900388cf3bb6043f645c",
    )));
}

#[test]
fn hash_round_trip() {
    let hash = molt::hashes::Hash::parse("sha256:deadbeef").unwrap();
    assert_eq!(hash.algorithm, "sha256");
    assert_eq!(hash.digest, "deadbeef");
    assert_eq!(hash.to_string(), "sha256:deadbeef");
}

#[test]
fn hash_without_separator_fails() {
    assert!(molt::hashes::Hash::parse("deadbeef").is_none());
    assert!(molt::hashes::Hash::parse("").is_none());
}

#[test]
fn hash_with_second_separator_stops_there() {
    let hash = molt::hashes::Hash::parse("md5:abc:def").unwrap();
    assert_eq!(hash.algorithm, "md5");
    assert_eq!(hash.digest, "abc");
}

#[test]
fn hashes_deduplicate_repeated_entries() {
    let mut hashes = Hashes::new();
    hashes.add(molt::hashes::Hash::new("sha256", "aa"));
    hashes.add(molt::hashes::Hash::new("sha256", "aa"));
    hashes.add(molt::hashes::Hash::new("sha256", "bb"));
    hashes.add(molt::hashes::Hash::new("md5", "aa"));
    assert_eq!(hashes.len(), 3);
}
