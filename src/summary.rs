//! What the logic reads from a dataset's chain: its kind, the inputs of its
//! transformation, its watermark and its remote aliases.

use crate::metadata::{
    BlockModel, DatasetId, DatasetKind, EventModel, MetadataBlock, RemoteAliasKind, blocks_view,
    copy_ids,
};
use vstd::prelude::*;

verus! {

/// The kind that the seed of a chain declares.
pub open spec fn chain_kind(c: Seq<BlockModel>) -> DatasetKind {
    if c.len() > 0 {
        match c[0].event {
            EventModel::Seed { kind, .. } => kind,
            _ => DatasetKind::Root,
        }
    } else {
        DatasetKind::Root
    }
}

/// The inputs that the latest `SetTransform` of a chain declares; none when
/// it has no such block.
pub open spec fn chain_inputs(c: Seq<BlockModel>) -> Seq<DatasetId>
    decreases c.len(),
{
    if c.len() == 0 {
        Seq::empty()
    } else {
        match c.last().event {
            EventModel::SetTransform { inputs, .. } => inputs,
            _ => chain_inputs(c.drop_last()),
        }
    }
}

/// The watermark that the latest `SetWatermark` of a chain sets, if any.
pub open spec fn chain_watermark(c: Seq<BlockModel>) -> Option<i64>
    decreases c.len(),
{
    if c.len() == 0 {
        None
    } else {
        match c.last().event {
            EventModel::SetWatermark { watermark } => Some(watermark),
            _ => chain_watermark(c.drop_last()),
        }
    }
}

/// The event declares a remote alias to pull from.
pub open spec fn is_pull_alias(e: EventModel) -> bool {
    match e {
        EventModel::SetRemoteAlias { kind, .. } => kind == RemoteAliasKind::Pull,
        _ => false,
    }
}

/// Some block of the chain declares a remote alias to pull from.
pub open spec fn has_pull_alias(c: Seq<BlockModel>) -> bool {
    exists|i: int| 0 <= i < c.len() && is_pull_alias((#[trigger] c[i]).event)
}

/// The kind that a chain's seed declares.
pub fn dataset_kind(blocks: &Vec<MetadataBlock>) -> (r: DatasetKind)
    ensures
        r == chain_kind(blocks_view(blocks@)),
{
    if blocks.len() == 0 {
        return DatasetKind::Root;
    }
    match &blocks[0].event {
        crate::metadata::MetadataEvent::Seed { kind, .. } => *kind,
        _ => DatasetKind::Root,
    }
}

/// The inputs of the latest `SetTransform` of a chain.
pub fn transform_inputs(blocks: &Vec<MetadataBlock>) -> (r: Vec<DatasetId>)
    ensures
        r@ == chain_inputs(blocks_view(blocks@)),
{
    let ghost s = blocks_view(blocks@);
    let mut j: usize = blocks.len();
    assert(s.subrange(0, j as int) =~= s);
    while j > 0
        invariant
            j <= blocks@.len(),
            s == blocks_view(blocks@),
            chain_inputs(s) == chain_inputs(s.subrange(0, j as int)),
        decreases j,
    {
        let ghost t = s.subrange(0, j as int);
        assert(t.drop_last() =~= s.subrange(0, j - 1));
        assert(t.last() == blocks@[j - 1]@);
        match &blocks[j - 1].event {
            crate::metadata::MetadataEvent::SetTransform { inputs, .. } => {
                return copy_ids(inputs);
            },
            _ => {},
        }
        j = j - 1;
    }
    assert(s.subrange(0, 0) =~= Seq::<BlockModel>::empty());
    Vec::new()
}

/// The watermark of the latest `SetWatermark` of a chain.
pub fn current_watermark(blocks: &Vec<MetadataBlock>) -> (r: Option<i64>)
    ensures
        r == chain_watermark(blocks_view(blocks@)),
{
    let ghost s = blocks_view(blocks@);
    let mut j: usize = blocks.len();
    assert(s.subrange(0, j as int) =~= s);
    while j > 0
        invariant
            j <= blocks@.len(),
            s == blocks_view(blocks@),
            chain_watermark(s) == chain_watermark(s.subrange(0, j as int)),
        decreases j,
    {
        let ghost t = s.subrange(0, j as int);
        assert(t.drop_last() =~= s.subrange(0, j - 1));
        assert(t.last() == blocks@[j - 1]@);
        match &blocks[j - 1].event {
            crate::metadata::MetadataEvent::SetWatermark { watermark } => {
                return Some(*watermark);
            },
            _ => {},
        }
        j = j - 1;
    }
    assert(s.subrange(0, 0) =~= Seq::<BlockModel>::empty());
    None
}

/// Whether some block of the chain declares a remote alias to pull from.
pub fn pulls_from_remote(blocks: &Vec<MetadataBlock>) -> (r: bool)
    ensures
        r == has_pull_alias(blocks_view(blocks@)),
{
    let ghost s = blocks_view(blocks@);
    let mut i: usize = 0;
    while i < blocks.len()
        invariant
            i <= blocks@.len(),
            s == blocks_view(blocks@),
            forall|k: int| 0 <= k < i ==> !is_pull_alias((#[trigger] s[k]).event),
        decreases blocks@.len() - i,
    {
        assert(s[i as int] == blocks@[i as int]@);
        match &blocks[i].event {
            crate::metadata::MetadataEvent::SetRemoteAlias { kind: RemoteAliasKind::Pull, .. } => {
                return true;
            },
            _ => {},
        }
        i = i + 1;
    }
    false
}

/// The URLs of the chain's remote aliases to pull from, oldest first.
pub open spec fn pull_alias_urls(c: Seq<BlockModel>) -> Seq<Seq<char>>
    decreases c.len(),
{
    if c.len() == 0 {
        Seq::empty()
    } else {
        let rest = pull_alias_urls(c.drop_last());
        match c.last().event {
            EventModel::SetRemoteAlias { url, kind } => if kind == RemoteAliasKind::Pull {
                rest.push(url)
            } else {
                rest
            },
            _ => rest,
        }
    }
}

/// A chain has a pull alias exactly when it lists a pull alias URL.
pub proof fn lemma_pull_alias_urls(c: Seq<BlockModel>)
    ensures
        pull_alias_urls(c).len() > 0 <==> has_pull_alias(c),
    decreases c.len(),
{
    if c.len() > 0 {
        let t = c.drop_last();
        lemma_pull_alias_urls(t);
        if has_pull_alias(t) {
            let i = choose|i: int| 0 <= i < t.len() && is_pull_alias((#[trigger] t[i]).event);
            assert(c[i] == t[i]);
        }
        if has_pull_alias(c) {
            let i = choose|i: int| 0 <= i < c.len() && is_pull_alias((#[trigger] c[i]).event);
            if i < t.len() {
                assert(t[i] == c[i]);
            } else {
                assert(c[i] == c.last());
            }
        }
        if is_pull_alias(c.last().event) {
            assert(c[c.len() - 1] == c.last());
        }
    }
}

/// The URLs of the chain's remote aliases to pull from, oldest first.
pub fn pull_aliases(blocks: &Vec<MetadataBlock>) -> (r: Vec<String>)
    ensures
        r@.map_values(|u: String| u@) == pull_alias_urls(blocks_view(blocks@)),
{
    let ghost s = blocks_view(blocks@);
    let mut r: Vec<String> = Vec::new();
    let mut i: usize = 0;
    while i < blocks.len()
        invariant
            i <= blocks@.len(),
            s == blocks_view(blocks@),
            r@.map_values(|u: String| u@) == pull_alias_urls(s.subrange(0, i as int)),
        decreases blocks@.len() - i,
    {
        let ghost before = r@;
        assert(s.subrange(0, i + 1).drop_last() =~= s.subrange(0, i as int));
        assert(s.subrange(0, i + 1).last() == blocks@[i as int]@);
        match &blocks[i].event {
            crate::metadata::MetadataEvent::SetRemoteAlias { url, kind: RemoteAliasKind::Pull } => {
                r.push(url.clone());
                assert(r@.map_values(|u: String| u@) =~= before.map_values(|u: String| u@).push(url@));
            },
            _ => {},
        }
        i = i + 1;
    }
    assert(s.subrange(0, i as int) =~= s);
    r
}

} // verus!
