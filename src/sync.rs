//! Reconciling a dataset's chain between two stores. Only fast-forward
//! transfers happen; divergence is reported, never merged.

use crate::chain::{extension_ok, is_chain};
use crate::chain_store::{AppendError, ChainStore, chain_or_empty, head_of};
use crate::hash::BlockHash;
use crate::metadata::{BlockModel, DatasetId, MetadataBlock, blocks_view};
use vstd::prelude::*;

verus! {

/// How a source chain stands against a destination chain.
#[derive(Clone, Copy, Debug, PartialEq, Eq, Structural)]
pub enum ChainRelation {
    /// Both have the same head (or neither exists).
    Equal,
    /// The destination head is in the source chain: a fast-forward of the
    /// destination.
    SourceAhead,
    /// The source head is in the destination chain: nothing to transfer.
    DestinationAhead,
    /// Neither head is in the other chain.
    Diverged { source_head: BlockHash, destination_head: BlockHash },
}

/// The outcome of a successful transfer.
#[derive(Clone, Copy, Debug, PartialEq, Eq, Structural)]
pub enum SyncResult {
    UpToDate,
    Updated { old_head: Option<BlockHash>, new_head: BlockHash },
}

/// Why a push or pull was refused.
#[derive(Clone, Copy, Debug, PartialEq, Eq, Structural)]
pub enum SyncError {
    /// The dataset is absent from the side being read.
    DoesNotExist,
    /// The side being written has blocks the other lacks.
    DestinationAhead,
    /// Local and remote chains have diverged.
    Diverged { local_head: BlockHash, remote_head: BlockHash },
    /// The destination head moved during the transfer.
    UpdatedConcurrently,
    /// The destination refused the blocks.
    Corrupted { error: AppendError },
}

/// The position of the last block with hash `h` in `c`, or `-1`.
pub open spec fn index_of_hash(c: Seq<BlockModel>, h: BlockHash) -> int
    decreases c.len(),
{
    if c.len() == 0 {
        -1
    } else if c.last().hash == h {
        c.len() - 1
    } else {
        index_of_hash(c.drop_last(), h)
    }
}

proof fn lemma_index_of_hash(c: Seq<BlockModel>, h: BlockHash)
    ensures
        -1 <= index_of_hash(c, h) < c.len(),
        index_of_hash(c, h) >= 0 ==> c[index_of_hash(c, h)].hash == h,
    decreases c.len(),
{
    if c.len() > 0 && c.last().hash != h {
        lemma_index_of_hash(c.drop_last(), h);
    }
}

/// How `src` stands against `dst`, either of which may be empty.
pub open spec fn relation(src: Seq<BlockModel>, dst: Seq<BlockModel>) -> ChainRelation {
    if src.len() == 0 && dst.len() == 0 {
        ChainRelation::Equal
    } else if src.len() > 0 && dst.len() > 0 && src.last().hash == dst.last().hash {
        ChainRelation::Equal
    } else if dst.len() == 0 || index_of_hash(src, dst.last().hash) >= 0 {
        ChainRelation::SourceAhead
    } else if src.len() == 0 || index_of_hash(dst, src.last().hash) >= 0 {
        ChainRelation::DestinationAhead
    } else {
        ChainRelation::Diverged { source_head: src.last().hash, destination_head: dst.last().hash }
    }
}

/// The blocks of `src` after the destination's head.
pub open spec fn missing_suffix(src: Seq<BlockModel>, dst: Seq<BlockModel>) -> Seq<BlockModel> {
    if dst.len() == 0 {
        src
    } else {
        src.subrange(index_of_hash(src, dst.last().hash) + 1, src.len() as int)
    }
}

/// The outcome of transferring a dataset's chain from `src` to `dst`: the
/// result and the destination afterwards.
pub open spec fn transfer_spec(
    src: Map<DatasetId, Seq<BlockModel>>,
    dst: Map<DatasetId, Seq<BlockModel>>,
    id: DatasetId,
) -> (Result<SyncResult, ChainRelation>, Map<DatasetId, Seq<BlockModel>>) {
    if !src.contains_key(id) {
        (Err(ChainRelation::Equal), dst)
    } else {
        let s = src[id];
        let d = chain_or_empty(dst, id);
        match relation(s, d) {
            ChainRelation::Equal => (Ok(SyncResult::UpToDate), dst),
            ChainRelation::SourceAhead => (
                Ok(SyncResult::Updated { old_head: head_of(dst, id), new_head: s.last().hash }),
                dst.insert(id, d + missing_suffix(s, d)),
            ),
            other => (Err(other), dst),
        }
    }
}

/// The error that a push reports for a refused transfer.
pub open spec fn push_error(e: ChainRelation) -> SyncError {
    match e {
        ChainRelation::Diverged { source_head, destination_head } => SyncError::Diverged {
            local_head: source_head,
            remote_head: destination_head,
        },
        ChainRelation::DestinationAhead => SyncError::DestinationAhead,
        _ => SyncError::DoesNotExist,
    }
}

/// The error that a pull reports for a refused transfer.
pub open spec fn pull_error(e: ChainRelation) -> SyncError {
    match e {
        ChainRelation::Diverged { source_head, destination_head } => SyncError::Diverged {
            local_head: destination_head,
            remote_head: source_head,
        },
        ChainRelation::DestinationAhead => SyncError::DestinationAhead,
        _ => SyncError::DoesNotExist,
    }
}

pub open spec fn map_err_spec(
    r: Result<SyncResult, ChainRelation>,
    f: spec_fn(ChainRelation) -> SyncError,
) -> Result<SyncResult, SyncError> {
    match r {
        Ok(v) => Ok(v),
        Err(e) => Err(f(e)),
    }
}

fn last_index_of(c: &Vec<MetadataBlock>, h: BlockHash) -> (r: Option<usize>)
    ensures
        match r {
            Some(i) => i as int == index_of_hash(blocks_view(c@), h) && i < c@.len(),
            None => index_of_hash(blocks_view(c@), h) == -1,
        },
{
    let ghost s = blocks_view(c@);
    assert(s.subrange(0, c@.len() as int) =~= s);
    let mut j: usize = c.len();
    while j > 0
        invariant
            j <= c@.len(),
            s == blocks_view(c@),
            index_of_hash(s, h) == index_of_hash(s.subrange(0, j as int), h),
        decreases j,
    {
        let ghost t = s.subrange(0, j as int);
        assert(t.drop_last() =~= s.subrange(0, j - 1));
        assert(t.last() == c@[j - 1]@);
        if c[j - 1].hash == h {
            return Some(j - 1);
        }
        j = j - 1;
    }
    assert(s.subrange(0, 0) =~= Seq::<BlockModel>::empty());
    None
}

/// How the source chain stands against the destination chain.
pub fn compare_chains(src: &Vec<MetadataBlock>, dst: &Vec<MetadataBlock>) -> (r: ChainRelation)
    ensures
        r == relation(blocks_view(src@), blocks_view(dst@)),
{
    let ns = src.len();
    let nd = dst.len();
    if ns == 0 && nd == 0 {
        return ChainRelation::Equal;
    }
    if ns > 0 && nd > 0 && src[ns - 1].hash == dst[nd - 1].hash {
        return ChainRelation::Equal;
    }
    if nd == 0 {
        return ChainRelation::SourceAhead;
    }
    if last_index_of(src, dst[nd - 1].hash).is_some() {
        return ChainRelation::SourceAhead;
    }
    if ns == 0 {
        return ChainRelation::DestinationAhead;
    }
    if last_index_of(dst, src[ns - 1].hash).is_some() {
        return ChainRelation::DestinationAhead;
    }
    ChainRelation::Diverged { source_head: src[ns - 1].hash, destination_head: dst[nd - 1].hash }
}

fn copy_range(c: &Vec<MetadataBlock>, from: usize) -> (r: Vec<MetadataBlock>)
    requires
        from <= c@.len(),
    ensures
        blocks_view(r@) == blocks_view(c@).subrange(from as int, c@.len() as int),
{
    let mut r: Vec<MetadataBlock> = Vec::new();
    let mut i: usize = from;
    while i < c.len()
        invariant
            from <= i <= c@.len(),
            blocks_view(r@) == blocks_view(c@).subrange(from as int, i as int),
        decreases c@.len() - i,
    {
        let b = c[i].copy();
        let ghost prev = blocks_view(r@);
        r.push(b);
        assert(blocks_view(r@) =~= prev.push(c@[i as int]@));
        i = i + 1;
        assert(blocks_view(r@) =~= blocks_view(c@).subrange(from as int, i as int));
    }
    r
}

proof fn lemma_suffix_extends(s: Seq<BlockModel>, d: Seq<BlockModel>)
    requires
        is_chain(s),
        relation(s, d) == ChainRelation::SourceAhead,
    ensures
        extension_ok(if d.len() == 0 { None } else { Some(d.last().hash) }, missing_suffix(s, d)),
{
    let x = missing_suffix(s, d);
    if d.len() == 0 {
        assert(x == s);
    } else {
        let h = d.last().hash;
        lemma_index_of_hash(s, h);
        let p = index_of_hash(s, h);
        assert(p < s.len() - 1);
        assert(x[0] == s[p + 1]);
        assert forall|i: int| 0 <= i < x.len() implies #[trigger] crate::encoding::hash_matches(x[i]) by {
            assert(x[i] == s[p + 1 + i]);
        }
        assert forall|i: int| 0 < i < x.len() implies (#[trigger] x[i]).prev == Some(x[i - 1].hash)
            && !(x[i].event is Seed) by {
            assert(x[i] == s[p + 1 + i]);
            assert(x[i - 1] == s[p + i]);
        }
    }
}

/// The relation of `s` to `d`, and where in `s` the blocks that `d` lacks
/// begin.
fn plan_transfer(s: &Vec<MetadataBlock>, d: &Vec<MetadataBlock>) -> (r: (ChainRelation, usize))
    ensures
        r.0 == relation(blocks_view(s@), blocks_view(d@)),
        r.0 == ChainRelation::SourceAhead ==> r.1 <= s@.len() && blocks_view(s@).subrange(
            r.1 as int,
            s@.len() as int,
        ) == missing_suffix(blocks_view(s@), blocks_view(d@)),
{
    let rel = compare_chains(s, d);
    let nd = d.len();
    if nd == 0 {
        assert(blocks_view(s@).subrange(0, s@.len() as int) =~= blocks_view(s@));
        return (rel, 0);
    }
    match last_index_of(s, d[nd - 1].hash) {
        Some(p) => {
            assert(p < s.len());
            (rel, p + 1)
        },
        None => (rel, 0),
    }
}

/// Copies the blocks of `src`'s chain for `id` that `dst` lacks onto
/// `dst`'s chain, when that is a fast-forward of `dst`.
#[verifier::rlimit(60)]
fn transfer(src: &ChainStore, dst: &mut ChainStore, id: DatasetId) -> (r: Result<
    SyncResult,
    ChainRelation,
>)
    requires
        src.wf(),
        old(dst).wf(),
    ensures
        final(dst).wf(),
        r == transfer_spec(src@, old(dst)@, id).0,
        final(dst)@ == transfer_spec(src@, old(dst)@, id).1,
{
    let s = match src.chain(id) {
        Some(s) => s,
        None => {
            return Err(ChainRelation::Equal);
        },
    };
    let ghost sv = blocks_view(s@);
    let ghost dv = chain_or_empty(dst@, id);
    let empty: Vec<MetadataBlock> = Vec::new();
    let (rel, from) = match dst.chain(id) {
        Some(d) => plan_transfer(s, d),
        None => {
            assert(blocks_view(empty@) =~= dv);
            plan_transfer(s, &empty)
        },
    };
    match rel {
        ChainRelation::Equal => Ok(SyncResult::UpToDate),
        ChainRelation::SourceAhead => {
            proof {
                src.lemma_chains_valid();
                assert(is_chain(sv));
                lemma_suffix_extends(sv, dv);
            }
            let old_head = dst.read_ref(id);
            proof {
                dst.lemma_chains_valid();
                if dst@.contains_key(id) {
                    assert(is_chain(dst@[id]));
                }
                assert(old_head == if dv.len() == 0 { None } else { Some(dv.last().hash) });
            }
            let suffix = copy_range(s, from);
            assert(blocks_view(suffix@) == missing_suffix(sv, dv));
            let n = s.len();
            let new_head = s[n - 1].hash;
            match dst.append_blocks(id, old_head, suffix) {
                Ok(_) => Ok(SyncResult::Updated { old_head, new_head }),
                Err(_) => {
                    assert(false);
                    Err(ChainRelation::Equal)
                },
            }
        },
        other => Err(other),
    }
}

/// Pushes a dataset's local chain to the remote store: a fast-forward of the
/// remote chain, or nothing when both heads are equal.
pub fn push(local: &ChainStore, remote: &mut ChainStore, id: DatasetId) -> (r: Result<
    SyncResult,
    SyncError,
>)
    requires
        local.wf(),
        old(remote).wf(),
    ensures
        final(remote).wf(),
        r == map_err_spec(transfer_spec(local@, old(remote)@, id).0, |e| push_error(e)),
        final(remote)@ == transfer_spec(local@, old(remote)@, id).1,
{
    match transfer(local, remote, id) {
        Ok(v) => Ok(v),
        Err(e) => Err(
            match e {
                ChainRelation::Diverged { source_head, destination_head } => SyncError::Diverged {
                    local_head: source_head,
                    remote_head: destination_head,
                },
                ChainRelation::DestinationAhead => SyncError::DestinationAhead,
                _ => SyncError::DoesNotExist,
            },
        ),
    }
}

/// Pulls a dataset's remote chain into the local store: a fast-forward of the
/// local chain, or nothing when both heads are equal.
pub fn pull(local: &mut ChainStore, remote: &ChainStore, id: DatasetId) -> (r: Result<
    SyncResult,
    SyncError,
>)
    requires
        old(local).wf(),
        remote.wf(),
    ensures
        final(local).wf(),
        r == map_err_spec(transfer_spec(remote@, old(local)@, id).0, |e| pull_error(e)),
        final(local)@ == transfer_spec(remote@, old(local)@, id).1,
{
    match transfer(remote, local, id) {
        Ok(v) => Ok(v),
        Err(e) => Err(
            match e {
                ChainRelation::Diverged { source_head, destination_head } => SyncError::Diverged {
                    local_head: destination_head,
                    remote_head: source_head,
                },
                ChainRelation::DestinationAhead => SyncError::DestinationAhead,
                _ => SyncError::DoesNotExist,
            },
        ),
    }
}

/// The outcome of reconciling a dataset between a local and a remote store:
/// the result and both stores afterwards.
pub open spec fn sync_spec(
    local: Map<DatasetId, Seq<BlockModel>>,
    remote: Map<DatasetId, Seq<BlockModel>>,
    id: DatasetId,
) -> (Result<SyncResult, SyncError>, Map<DatasetId, Seq<BlockModel>>, Map<DatasetId, Seq<BlockModel>>) {
    if !local.contains_key(id) && !remote.contains_key(id) {
        (Err(SyncError::DoesNotExist), local, remote)
    } else {
        match relation(chain_or_empty(local, id), chain_or_empty(remote, id)) {
            ChainRelation::Equal => (Ok(SyncResult::UpToDate), local, remote),
            ChainRelation::SourceAhead => {
                let (res, after) = transfer_spec(local, remote, id);
                (map_err_spec(res, |e| push_error(e)), local, after)
            },
            ChainRelation::DestinationAhead => {
                let (res, after) = transfer_spec(remote, local, id);
                (map_err_spec(res, |e| pull_error(e)), after, remote)
            },
            ChainRelation::Diverged { source_head, destination_head } => (
                Err(SyncError::Diverged { local_head: source_head, remote_head: destination_head }),
                local,
                remote,
            ),
        }
    }
}

/// Reconciles a dataset's chain between the local and the remote store: a
/// fast-forward push when the local chain extends the remote one, a
/// fast-forward pull when the remote chain extends the local one, nothing
/// when both heads are equal; divergence is reported and never merged.
pub fn sync(local: &mut ChainStore, remote: &mut ChainStore, id: DatasetId) -> (r: Result<SyncResult, SyncError>)
    requires
        old(local).wf(),
        old(remote).wf(),
    ensures
        final(local).wf(),
        final(remote).wf(),
        (r, final(local)@, final(remote)@) == sync_spec(old(local)@, old(remote)@, id),
{
    let rel = {
        let empty: Vec<MetadataBlock> = Vec::new();
        let l = match local.chain(id) {
            Some(l) => l,
            None => &empty,
        };
        let r = match remote.chain(id) {
            Some(r) => r,
            None => &empty,
        };
        if l.len() == 0 && r.len() == 0 {
            proof {
                local.lemma_chains_valid();
                remote.lemma_chains_valid();
                if local@.contains_key(id) {
                    assert(is_chain(local@[id]));
                }
                if remote@.contains_key(id) {
                    assert(is_chain(remote@[id]));
                }
            }
            return Err(SyncError::DoesNotExist);
        }
        assert(blocks_view(empty@) =~= Seq::<BlockModel>::empty());
        compare_chains(l, r)
    };
    match rel {
        ChainRelation::Equal => Ok(SyncResult::UpToDate),
        ChainRelation::SourceAhead => push(local, remote, id),
        ChainRelation::DestinationAhead => pull(local, remote, id),
        ChainRelation::Diverged { source_head, destination_head } => Err(
            SyncError::Diverged { local_head: source_head, remote_head: destination_head },
        ),
    }
}

/// No two blocks of the sequence share a hash.
pub open spec fn distinct_hashes(s: Seq<BlockModel>) -> bool {
    forall|i: int, j: int| 0 <= i < s.len() && 0 <= j < s.len() && i != j ==> (#[trigger] s[i]).hash != (#[trigger] s[j]).hash
}

proof fn lemma_not_found(c: Seq<BlockModel>, h: BlockHash)
    requires
        forall|i: int| 0 <= i < c.len() ==> (#[trigger] c[i]).hash != h,
    ensures
        index_of_hash(c, h) == -1,
{
    lemma_index_of_hash(c, h);
}

/// Pulling a dataset and then pushing the unmodified local chain back leaves
/// the remote store unchanged and reports `UpToDate`.
pub proof fn lemma_pull_then_push_up_to_date(
    local: Map<DatasetId, Seq<BlockModel>>,
    remote: Map<DatasetId, Seq<BlockModel>>,
    id: DatasetId,
)
    requires
        forall|x: DatasetId| #[trigger] local.contains_key(x) ==> is_chain(local[x]),
        forall|x: DatasetId| #[trigger] remote.contains_key(x) ==> is_chain(remote[x]),
        transfer_spec(remote, local, id).0 is Ok,
    ensures
        transfer_spec(transfer_spec(remote, local, id).1, remote, id) == (
            Ok::<SyncResult, ChainRelation>(SyncResult::UpToDate),
            remote,
        ),
{
    let r = remote[id];
    let d = chain_or_empty(local, id);
    let l1 = transfer_spec(remote, local, id).1;
    if local.contains_key(id) {
        assert(is_chain(local[id]));
    }
    assert(is_chain(r));
    match relation(r, d) {
        ChainRelation::Equal => {
            assert(l1 == local);
            assert(local.contains_key(id));
        },
        ChainRelation::SourceAhead => {
            let x = missing_suffix(r, d);
            if d.len() > 0 {
                lemma_index_of_hash(r, d.last().hash);
            }
            assert(x.len() > 0 && x.last() == r.last());
            assert((d + x).last() == x.last());
            assert(l1[id] == d + x);
        },
        _ => {},
    }
}

proof fn lemma_fast_forward(src: Seq<BlockModel>, common: Seq<BlockModel>, extra: Seq<BlockModel>)
    requires
        src == common + extra,
        common.len() > 0,
        extra.len() > 0,
        distinct_hashes(src),
    ensures
        relation(src, common) == ChainRelation::SourceAhead,
        missing_suffix(src, common) == extra,
{
    let h = common.last().hash;
    let p = common.len() - 1;
    assert(src[p] == common.last());
    assert(src.last() == src[src.len() - 1]);
    assert(src.len() - 1 != p);
    assert(src.last().hash != h);
    assert forall|i: int| p < i < src.len() implies (#[trigger] src[i]).hash != h by {
        assert(src[i].hash != src[p].hash);
    }
    lemma_index_of_tail(src, h, p);
    assert(src.subrange(p + 1, src.len() as int) =~= extra);
}

proof fn lemma_index_of_tail(c: Seq<BlockModel>, h: BlockHash, p: int)
    requires
        0 <= p < c.len(),
        c[p].hash == h,
        forall|i: int| p < i < c.len() ==> (#[trigger] c[i]).hash != h,
    ensures
        index_of_hash(c, h) == p,
    decreases c.len(),
{
    if c.len() - 1 != p {
        assert(c.drop_last()[p] == c[p]);
        assert forall|i: int| p < i < c.drop_last().len() implies (#[trigger] c.drop_last()[i]).hash != h by {
            assert(c.drop_last()[i] == c[i]);
        }
        lemma_index_of_tail(c.drop_last(), h, p);
    }
}

/// A local chain that extends the remote chain by further blocks pushes as a
/// fast-forward: the remote gains exactly those blocks and its head becomes
/// the local head. Block hashes within the chain are taken to be distinct.
pub proof fn lemma_push_fast_forward(
    local: Map<DatasetId, Seq<BlockModel>>,
    remote: Map<DatasetId, Seq<BlockModel>>,
    id: DatasetId,
    common: Seq<BlockModel>,
    extra: Seq<BlockModel>,
)
    requires
        local.contains_key(id) && local[id] == common + extra,
        remote.contains_key(id) && remote[id] == common,
        common.len() > 0,
        extra.len() > 0,
        distinct_hashes(common + extra),
    ensures
        transfer_spec(local, remote, id) == (
            Ok::<SyncResult, ChainRelation>(
                SyncResult::Updated {
                    old_head: Some(common.last().hash),
                    new_head: extra.last().hash,
                },
            ),
            remote.insert(id, common + extra),
        ),
        sync_spec(local, remote, id) == (
            Ok::<SyncResult, SyncError>(
                SyncResult::Updated {
                    old_head: Some(common.last().hash),
                    new_head: extra.last().hash,
                },
            ),
            local,
            remote.insert(id, common + extra),
        ),
{
    lemma_fast_forward(common + extra, common, extra);
    assert((common + extra).last() == extra.last());
}

/// A remote chain that extends the local chain by further blocks pulls as a
/// fast-forward: the local chain gains exactly those blocks. Block hashes
/// within the chain are taken to be distinct.
pub proof fn lemma_pull_fast_forward(
    local: Map<DatasetId, Seq<BlockModel>>,
    remote: Map<DatasetId, Seq<BlockModel>>,
    id: DatasetId,
    common: Seq<BlockModel>,
    extra: Seq<BlockModel>,
)
    requires
        local.contains_key(id) && local[id] == common,
        remote.contains_key(id) && remote[id] == common + extra,
        common.len() > 0,
        extra.len() > 0,
        distinct_hashes(common + extra),
    ensures
        transfer_spec(remote, local, id) == (
            Ok::<SyncResult, ChainRelation>(
                SyncResult::Updated {
                    old_head: Some(common.last().hash),
                    new_head: extra.last().hash,
                },
            ),
            local.insert(id, common + extra),
        ),
        sync_spec(local, remote, id) == (
            Ok::<SyncResult, SyncError>(
                SyncResult::Updated {
                    old_head: Some(common.last().hash),
                    new_head: extra.last().hash,
                },
            ),
            local.insert(id, common + extra),
            remote,
        ),
{
    let all = common + extra;
    lemma_fast_forward(all, common, extra);
    assert(all.last() == extra.last());
    assert forall|i: int| 0 <= i < common.len() implies (#[trigger] common[i]).hash != all.last().hash by {
        assert(common[i] == all[i]);
        assert(all.last() == all[all.len() - 1]);
    }
    lemma_not_found(common, all.last().hash);
    assert(all[common.len() - 1] == common.last());
    assert forall|i: int| common.len() - 1 < i < all.len() implies (#[trigger] all[i]).hash != common.last().hash by {
        assert(all[i].hash != all[common.len() - 1].hash);
    }
    lemma_index_of_tail(all, common.last().hash, common.len() - 1);
    assert(relation(common, all) == ChainRelation::DestinationAhead);
}

/// Chains that each add blocks to a common ancestry have diverged: pushing
/// and pulling both report `Diverged` with the two heads and change nothing.
/// Block hashes across both chains are taken to be distinct.
pub proof fn lemma_diverged(
    local: Map<DatasetId, Seq<BlockModel>>,
    remote: Map<DatasetId, Seq<BlockModel>>,
    id: DatasetId,
    common: Seq<BlockModel>,
    ours: Seq<BlockModel>,
    theirs: Seq<BlockModel>,
)
    requires
        local.contains_key(id) && local[id] == common + ours,
        remote.contains_key(id) && remote[id] == common + theirs,
        ours.len() > 0,
        theirs.len() > 0,
        distinct_hashes(common + ours + theirs),
    ensures
        transfer_spec(local, remote, id) == (
            Err::<SyncResult, ChainRelation>(
                ChainRelation::Diverged {
                    source_head: ours.last().hash,
                    destination_head: theirs.last().hash,
                },
            ),
            remote,
        ),
        push_error(transfer_spec(local, remote, id).0->Err_0) == (SyncError::Diverged {
            local_head: ours.last().hash,
            remote_head: theirs.last().hash,
        }),
        transfer_spec(remote, local, id) == (
            Err::<SyncResult, ChainRelation>(
                ChainRelation::Diverged {
                    source_head: theirs.last().hash,
                    destination_head: ours.last().hash,
                },
            ),
            local,
        ),
        pull_error(transfer_spec(remote, local, id).0->Err_0) == (SyncError::Diverged {
            local_head: ours.last().hash,
            remote_head: theirs.last().hash,
        }),
        sync_spec(local, remote, id) == (
            Err::<SyncResult, SyncError>(
                SyncError::Diverged { local_head: ours.last().hash, remote_head: theirs.last().hash },
            ),
            local,
            remote,
        ),
{
    let all = common + ours + theirs;
    let l = common + ours;
    let r = common + theirs;
    let c = common.len();
    let o = ours.len();
    let lh = ours.last().hash;
    let rh = theirs.last().hash;
    assert(all[c + o - 1] == ours.last());
    assert(all[all.len() - 1] == theirs.last());
    assert(l.last() == ours.last());
    assert(r.last() == theirs.last());
    assert forall|i: int| 0 <= i < r.len() implies (#[trigger] r[i]).hash != lh by {
        if i < c {
            assert(r[i] == all[i]);
        } else {
            assert(r[i] == all[i + o]);
        }
    }
    assert forall|i: int| 0 <= i < l.len() implies (#[trigger] l[i]).hash != rh by {
        assert(l[i] == all[i]);
        if i < c {
            assert(all[i] == r[i]);
        }
    }
    lemma_not_found(r, lh);
    lemma_not_found(l, rh);
}

} // verus!
