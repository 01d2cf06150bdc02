use kamu::chain::{build_chain, validate_chain, ChainError};
use kamu::encoding::{compute_hash, encode_content};
use kamu::hash::BlockHash;
use kamu::metadata::{DatasetKind, MetadataBlock, MetadataEvent, RemoteAliasKind};

fn seed(id: u64) -> MetadataEvent {
    MetadataEvent::Seed { dataset_id: id, kind: DatasetKind::Root }
}

fn history() -> Vec<(i64, MetadataEvent)> {
    vec![
        (0, seed(1)),
        (10, MetadataEvent::SetInfo { description: "Test dataset".to_string() }),
        (20, MetadataEvent::AddData { offset_start: 0, offset_end: 99 }),
        (30, MetadataEvent::SetWatermark { watermark: 1_000 }),
        (40, MetadataEvent::SetRemoteAlias { url: "http://example.com/a".to_string(), kind: RemoteAliasKind::Push }),
    ]
}

#[test]
fn encoding_of_content_is_exact() {
    let bytes = encode_content(None, 1, &MetadataEvent::SetWatermark { watermark: 2 });
    let mut expected = vec![0u8];
    expected.extend_from_slice(&[0, 0, 0, 0, 0, 0, 0, 1]);
    expected.push(2);
    expected.extend_from_slice(&[0, 0, 0, 0, 0, 0, 0, 2]);
    assert_eq!(bytes, expected);

    let bytes = encode_content(None, 0, &MetadataEvent::SetInfo { description: "hé".to_string() });
    assert_eq!(bytes, vec![0, 0, 0, 0, 0, 0, 0, 0, 0, 5, 0, 0, 0, 0, 0, 0, 0, 3, b'h', 0xc3, 0xa9]);
}

#[test]
fn hash_of_seed_block_is_sha3_of_its_content() {
    let h = compute_hash(None, 0, &seed(1));
    assert_eq!(
        h,
        BlockHash { w0: 0x61dabe4bef14d96b, w1: 0x82a58a2d1690e542, w2: 0x372f31216caa4a76, w3: 0x0d1a2abcbb95fb4b }
    );
}

#[test]
fn identical_histories_give_identical_hashes() {
    let a = build_chain(history());
    let b = build_chain(history());
    assert_eq!(a.len(), 5);
    for i in 0..a.len() {
        assert_eq!(a[i].hash, b[i].hash);
    }
    assert_eq!(a[0].prev_block_hash, None);
    for i in 1..a.len() {
        assert_eq!(a[i].prev_block_hash, Some(a[i - 1].hash));
    }
}

#[test]
fn different_histories_give_different_hashes() {
    let a = build_chain(history());
    let mut other = history();
    other[2] = (20, MetadataEvent::AddData { offset_start: 0, offset_end: 100 });
    let b = build_chain(other);
    assert_eq!(a[1].hash, b[1].hash);
    assert_ne!(a[2].hash, b[2].hash);
    assert_ne!(a[4].hash, b[4].hash);
}

#[test]
fn valid_chain_validates_in_any_order() {
    let mut blocks = build_chain(history());
    assert_eq!(validate_chain(&blocks), Ok(()));
    blocks.reverse();
    assert_eq!(validate_chain(&blocks), Ok(()));
}

#[test]
fn missing_predecessor_is_broken_link() {
    let mut blocks = build_chain(history());
    let missing = blocks.remove(2).hash;
    assert_eq!(validate_chain(&blocks), Err(ChainError::BrokenLink { hash: missing }));
}

#[test]
fn two_seeds_are_refused() {
    let mut blocks = build_chain(history());
    blocks.extend(build_chain(vec![(0, seed(2))]));
    assert_eq!(validate_chain(&blocks), Err(ChainError::MultipleSeeds));
}

#[test]
fn no_seed_is_refused() {
    assert_eq!(validate_chain(&Vec::new()), Err(ChainError::MissingSeed));
}

#[test]
fn tampered_block_is_corrupt() {
    let mut blocks = build_chain(history());
    let h = blocks[1].hash;
    blocks[1].system_time = 11;
    assert_eq!(validate_chain(&blocks), Err(ChainError::CorruptBlock { hash: h }));
}

#[test]
fn block_new_carries_its_content_hash() {
    let b = MetadataBlock::new(None, 5, seed(9));
    assert!(b.verify_hash());
    assert_eq!(b.hash, compute_hash(None, 5, &seed(9)));
}
