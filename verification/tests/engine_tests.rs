use oxshare_core::init;
use oxshare_core::ContentHasher;
use oxshare_core::EngineError;
use oxshare_core::ProcessingEngine;
use oxshare_core::DEFAULT_CHUNK_SIZE;

#[test]
fn test_roundtrip_processing() {
    let engine = ProcessingEngine::new(16);
    let input = b"Hello, 0xShare!";

    let result = engine.process(input).unwrap();
    let reconstructed = engine.reconstruct(&result.chunks).unwrap();

    assert_eq!(input.to_vec(), reconstructed);
}

#[test]
fn test_empty_input_rejected() {
    let engine = ProcessingEngine::new(16);
    assert!(engine.process(&[]).is_err());
}

#[test]
fn test_engine_initialization() {
    let engine = init();
    assert_eq!(engine.chunk_size(), DEFAULT_CHUNK_SIZE);
}

#[test]
fn test_multi_chunk_roundtrip() {
    let input = b"the quick brown fox jumps over the lazy dog";
    for chunk_size in [1usize, 3, 7, 16, 64] {
        let engine = ProcessingEngine::new(chunk_size);
        let result = engine.process(input).unwrap();
        let reconstructed = engine.reconstruct(&result.chunks).unwrap();
        assert_eq!(input.to_vec(), reconstructed);
    }
}

#[test]
fn test_chunk_boundaries() {
    let engine = ProcessingEngine::new(4);
    let input = b"0123456789";

    let result = engine.process(input).unwrap();
    assert_eq!(result.chunk_count(), 3);
    assert_eq!(result.total_size, 10);

    assert_eq!(result.chunks[0].data, b"0123".to_vec());
    assert_eq!(result.chunks[1].data, b"4567".to_vec());
    assert_eq!(result.chunks[2].data, b"89".to_vec());

    assert_eq!(result.chunks[0].offset, 0);
    assert_eq!(result.chunks[1].offset, 4);
    assert_eq!(result.chunks[2].offset, 8);

    assert_eq!(result.chunks[0].size(), 4);
    assert_eq!(result.chunks[1].size(), 4);
    assert_eq!(result.chunks[2].size(), 2);

    let hasher = ContentHasher::new();
    for chunk in &result.chunks {
        assert!(hasher.verify(&chunk.data, &chunk.id));
    }
}

#[test]
fn test_root_hash_independence() {
    let engine = ProcessingEngine::new(16);
    let input = b"Hello, OxShare!";

    let result = engine.process(input).unwrap();
    assert_eq!(result.chunk_count(), 1);
    assert_eq!(result.chunks[0].offset, 0);
    assert_eq!(result.chunks[0].size(), 15);
    assert_eq!(result.chunks[0].id, result.root_hash);

    let hasher = ContentHasher::new();
    assert_eq!(result.root_hash, hasher.compute(input));
}

#[test]
fn test_tamper_detection() {
    let engine = ProcessingEngine::new(4);
    let input = b"hello world, chunked";

    let result = engine.process(input).unwrap();
    let mut tampered = result.chunks.clone();
    tampered[1].data[0] ^= 0xff;

    let err = engine.reconstruct(&tampered).unwrap_err();
    match err {
        EngineError::IntegrityFailure { expected, actual } => {
            assert_eq!(expected, result.chunks[1].id);
            let hasher = ContentHasher::new();
            assert_eq!(actual, hasher.compute(&tampered[1].data));
            assert_ne!(expected, actual);
        },
        other => panic!("expected an integrity failure, got {:?}", other),
    }
}

#[test]
fn test_empty_variants() {
    let engine = ProcessingEngine::new(16);
    assert!(matches!(
        engine.process(&[]).unwrap_err(),
        EngineError::EmptyInput
    ));
    assert!(matches!(
        engine.reconstruct(&[]).unwrap_err(),
        EngineError::EmptyInput
    ));
}

#[test]
fn test_order_sensitivity() {
    let engine = ProcessingEngine::new(4);
    let input = b"abcdefgh";

    let result = engine.process(input).unwrap();
    assert_eq!(result.chunk_count(), 2);

    let permuted = vec![result.chunks[1].clone(), result.chunks[0].clone()];
    let out = engine.reconstruct(&permuted).unwrap();

    assert_eq!(out, b"efghabcd".to_vec());
    assert_ne!(out, input.to_vec());
}
