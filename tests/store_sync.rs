use kamu::chain::build_chain;
use kamu::chain::ChainError;
use kamu::chain_store::{AppendError, BlockNotFound, ChainStore};
use kamu::hash::BlockHash;
use kamu::metadata::{DatasetKind, MetadataBlock, MetadataEvent};
use kamu::sync::{compare_chains, pull, push, sync, ChainRelation, SyncError, SyncResult};

fn seed_chain(id: u64) -> Vec<MetadataBlock> {
    build_chain(vec![(0, MetadataEvent::Seed { dataset_id: id, kind: DatasetKind::Root })])
}

fn data_block(prev: BlockHash, t: i64, end: u64) -> MetadataBlock {
    MetadataBlock::new(Some(prev), t, MetadataEvent::AddData { offset_start: 0, offset_end: end })
}

fn store_with_seed(id: u64) -> (ChainStore, BlockHash) {
    let mut s = ChainStore::new();
    let blocks = seed_chain(id);
    let h = s.append_blocks(id, None, blocks).unwrap();
    (s, h)
}

#[test]
fn append_advances_head() {
    let (mut s, h0) = store_with_seed(1);
    assert_eq!(s.read_ref(1), Some(h0));
    let b = data_block(h0, 1, 10);
    let h1 = b.hash;
    assert_eq!(s.append_blocks(1, Some(h0), vec![b]), Ok(h1));
    assert_eq!(s.read_ref(1), Some(h1));
    assert_eq!(s.chain(1).unwrap().len(), 2);
    assert_eq!(s.read_ref(2), None);
}

#[test]
fn stale_expected_head_is_concurrent_modification() {
    let (mut s, h0) = store_with_seed(1);
    let b1 = data_block(h0, 1, 10);
    let h1 = b1.hash;
    s.append_blocks(1, Some(h0), vec![b1]).unwrap();
    let late = data_block(h0, 2, 20);
    assert_eq!(s.append_blocks(1, Some(h0), vec![late]), Err(AppendError::ConcurrentModification));
    assert_eq!(s.read_ref(1), Some(h1));
    assert_eq!(s.chain(1).unwrap().len(), 2);
    let fresh = seed_chain(1);
    assert_eq!(s.append_blocks(1, None, fresh), Err(AppendError::ConcurrentModification));
    assert_eq!(s.read_ref(1), Some(h1));
}

#[test]
fn invalid_appends_are_refused() {
    let (mut s, h0) = store_with_seed(1);
    assert_eq!(s.append_blocks(1, Some(h0), vec![]), Err(AppendError::NoBlocks));
    let other = seed_chain(7)[0].hash;
    let stray = data_block(other, 1, 10);
    assert_eq!(
        s.append_blocks(1, Some(h0), vec![stray]),
        Err(AppendError::InvalidChain { error: ChainError::BrokenLink { hash: other } })
    );
    let reseed = MetadataBlock::new(Some(h0), 1, MetadataEvent::Seed { dataset_id: 1, kind: DatasetKind::Root });
    assert_eq!(
        s.append_blocks(1, Some(h0), vec![reseed]),
        Err(AppendError::InvalidChain { error: ChainError::MultipleSeeds })
    );
    let no_seed = MetadataBlock::new(None, 0, MetadataEvent::SetWatermark { watermark: 1 });
    assert_eq!(
        s.append_blocks(2, None, vec![no_seed]),
        Err(AppendError::InvalidChain { error: ChainError::MissingSeed })
    );
    let mut bad = data_block(h0, 1, 10);
    let claimed = bad.hash;
    bad.event = MetadataEvent::AddData { offset_start: 0, offset_end: 11 };
    assert_eq!(
        s.append_blocks(1, Some(h0), vec![bad]),
        Err(AppendError::InvalidChain { error: ChainError::CorruptBlock { hash: claimed } })
    );
    assert_eq!(s.read_ref(1), Some(h0));
    assert_eq!(s.read_ref(2), None);
}

#[test]
fn blocks_are_found_by_hash_and_walked_back() {
    let (mut s, h0) = store_with_seed(1);
    let b1 = data_block(h0, 1, 10);
    let h1 = b1.hash;
    let b2 = data_block(h1, 2, 20);
    let h2 = b2.hash;
    s.append_blocks(1, Some(h0), vec![b1, b2]).unwrap();
    assert_eq!(s.get_block(h1).unwrap().hash, h1);
    let missing = seed_chain(9)[0].hash;
    assert_eq!(s.get_block(missing).unwrap_err(), BlockNotFound { hash: missing });
    let walk: Vec<BlockHash> = s.iterate_from(h2).unwrap().iter().map(|b| b.hash).collect();
    assert_eq!(walk, vec![h2, h1, h0]);
    let again: Vec<BlockHash> = s.iterate_from(h1).unwrap().iter().map(|b| b.hash).collect();
    assert_eq!(again, vec![h1, h0]);
    assert!(s.iterate_from(missing).is_err());
}

#[test]
fn push_of_two_extra_blocks_fast_forwards_remote() {
    let (mut local, h0) = store_with_seed(1);
    let (mut remote, _) = store_with_seed(1);
    let b1 = data_block(h0, 1, 10);
    let h1 = b1.hash;
    let b2 = data_block(h1, 2, 20);
    let h2 = b2.hash;
    local.append_blocks(1, Some(h0), vec![b1, b2]).unwrap();
    assert_eq!(
        compare_chains(local.chain(1).unwrap(), remote.chain(1).unwrap()),
        ChainRelation::SourceAhead
    );
    assert_eq!(
        push(&local, &mut remote, 1),
        Ok(SyncResult::Updated { old_head: Some(h0), new_head: h2 })
    );
    assert_eq!(remote.read_ref(1), Some(h2));
    assert_eq!(remote.chain(1).unwrap().len(), 3);
}

#[test]
fn remote_extra_blocks_pull_as_fast_forward() {
    let (mut local, h0) = store_with_seed(1);
    let (mut remote, _) = store_with_seed(1);
    let b1 = data_block(h0, 1, 10);
    let h1 = b1.hash;
    remote.append_blocks(1, Some(h0), vec![b1]).unwrap();
    assert_eq!(push(&local, &mut remote, 1), Err(SyncError::DestinationAhead));
    assert_eq!(pull(&mut local, &remote, 1), Ok(SyncResult::Updated { old_head: Some(h0), new_head: h1 }));
    assert_eq!(local.read_ref(1), Some(h1));
}

#[test]
fn diverged_chains_are_reported_with_both_heads() {
    let (mut local, h0) = store_with_seed(1);
    let (mut remote, _) = store_with_seed(1);
    let ours = data_block(h0, 1, 10);
    let theirs = data_block(h0, 1, 20);
    let (lh, rh) = (ours.hash, theirs.hash);
    local.append_blocks(1, Some(h0), vec![ours]).unwrap();
    remote.append_blocks(1, Some(h0), vec![theirs]).unwrap();
    assert_eq!(push(&local, &mut remote, 1), Err(SyncError::Diverged { local_head: lh, remote_head: rh }));
    assert_eq!(pull(&mut local, &remote, 1), Err(SyncError::Diverged { local_head: lh, remote_head: rh }));
    assert_eq!(local.read_ref(1), Some(lh));
    assert_eq!(remote.read_ref(1), Some(rh));
}

#[test]
fn pull_then_push_is_up_to_date() {
    let mut local = ChainStore::new();
    let (mut remote, h0) = store_with_seed(1);
    let b1 = data_block(h0, 1, 10);
    let h1 = b1.hash;
    remote.append_blocks(1, Some(h0), vec![b1]).unwrap();
    assert_eq!(pull(&mut local, &remote, 1), Ok(SyncResult::Updated { old_head: None, new_head: h1 }));
    assert_eq!(push(&local, &mut remote, 1), Ok(SyncResult::UpToDate));
    assert_eq!(remote.read_ref(1), Some(h1));
    assert_eq!(remote.chain(1).unwrap().len(), 2);
}

#[test]
fn push_to_empty_remote_copies_whole_chain() {
    let (local, h0) = store_with_seed(3);
    let mut remote = ChainStore::new();
    assert_eq!(push(&local, &mut remote, 3), Ok(SyncResult::Updated { old_head: None, new_head: h0 }));
    assert_eq!(push(&local, &mut remote, 4), Err(SyncError::DoesNotExist));
}

#[test]
fn sync_picks_the_fast_forward_direction() {
    let (mut local, h0) = store_with_seed(1);
    let (mut remote, _) = store_with_seed(1);
    assert_eq!(sync(&mut local, &mut remote, 1), Ok(SyncResult::UpToDate));
    let b1 = data_block(h0, 1, 10);
    let h1 = b1.hash;
    let b2 = data_block(h1, 2, 20);
    let h2 = b2.hash;
    local.append_blocks(1, Some(h0), vec![b1, b2]).unwrap();
    assert_eq!(sync(&mut local, &mut remote, 1), Ok(SyncResult::Updated { old_head: Some(h0), new_head: h2 }));
    assert_eq!(remote.read_ref(1), Some(h2));
    let b3 = data_block(h2, 3, 30);
    let h3 = b3.hash;
    remote.append_blocks(1, Some(h2), vec![b3]).unwrap();
    assert_eq!(sync(&mut local, &mut remote, 1), Ok(SyncResult::Updated { old_head: Some(h2), new_head: h3 }));
    assert_eq!(local.read_ref(1), Some(h3));
    assert_eq!(sync(&mut local, &mut remote, 5), Err(SyncError::DoesNotExist));
}

#[test]
fn sync_never_merges_diverged_chains() {
    let (mut local, h0) = store_with_seed(1);
    let (mut remote, _) = store_with_seed(1);
    let ours = data_block(h0, 1, 10);
    let theirs = data_block(h0, 1, 20);
    let (lh, rh) = (ours.hash, theirs.hash);
    local.append_blocks(1, Some(h0), vec![ours]).unwrap();
    remote.append_blocks(1, Some(h0), vec![theirs]).unwrap();
    assert_eq!(sync(&mut local, &mut remote, 1), Err(SyncError::Diverged { local_head: lh, remote_head: rh }));
    assert_eq!(local.chain(1).unwrap().len(), 2);
    assert_eq!(remote.chain(1).unwrap().len(), 2);
}
