use oxshare_core::ChunkId;
use oxshare_core::ContentHasher;

#[test]
fn test_deterministic_hashing() {
    let hasher = ContentHasher::new();
    let data = b"test data";

    let hash1 = hasher.compute(data);
    let hash2 = hasher.compute(data);

    assert_eq!(hash1, hash2);
}

#[test]
fn test_different_data_different_hash() {
    let hasher = ContentHasher::new();

    let hash1 = hasher.compute(b"data1");
    let hash2 = hasher.compute(b"data2");

    assert_ne!(hash1, hash2);
}

#[test]
fn test_verification() {
    let hasher = ContentHasher::new();
    let data = b"verify me";
    let hash = hasher.compute(data);

    assert!(hasher.verify(data, &hash));
    assert!(!hasher.verify(b"wrong data", &hash));
}

#[test]
fn test_known_digests() {
    let hasher = ContentHasher::new();
    assert_eq!(
        hasher.compute(b"abc").as_str(),
        "ba7816bf8f01cfea414140de5dae2223b00361a396177a9cb410ff61f20015ad"
    );
    assert_eq!(
        hasher.compute(b"").as_str(),
        "e3b0c44298fc1c149afbf4c8996fb92427ae41e4649b934ca495991b7852b855"
    );
}

#[test]
fn test_chunk_id_short() {
    let hasher = ContentHasher::new();
    let id = hasher.compute(b"abc");
    assert_eq!(id.short(), "ba7816bf...f20015ad");

    let tiny = ChunkId(String::from("abc"));
    assert_eq!(tiny.short(), "abc");
    assert_eq!(tiny.as_str(), "abc");

    let sixteen = ChunkId(String::from("0123456789abcdef"));
    assert_eq!(sixteen.short(), "0123456789abcdef");
}
