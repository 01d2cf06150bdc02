//! Local, append-only storage of each dataset's chain, advanced by
//! compare-and-swap on the head.

use crate::chain::{ChainError, check_extension, extension_ok, is_chain, lemma_extend_chain};
use crate::dependency::{DatasetGraph, DatasetNode, in_graph, inputs_of, kind_of};
use crate::hash::BlockHash;
use crate::summary::{chain_inputs, chain_kind, dataset_kind, transform_inputs};
use crate::metadata::{BlockModel, DatasetId, MetadataBlock, blocks_view};
use vstd::prelude::*;

verus! {

/// Why an append was refused.
#[derive(Clone, Copy, Debug, PartialEq, Eq, Structural)]
pub enum AppendError {
    /// The head moved since the caller read it.
    ConcurrentModification,
    /// Nothing was given to append.
    NoBlocks,
    /// The blocks do not extend the expected head.
    InvalidChain { error: ChainError },
}

/// A hash that no stored block carries.
#[derive(Clone, Copy, Debug, PartialEq, Eq, Structural)]
pub struct BlockNotFound {
    pub hash: BlockHash,
}

/// The blocks of one dataset, seed first.
#[derive(Debug)]
pub struct DatasetChain {
    pub id: DatasetId,
    pub blocks: Vec<MetadataBlock>,
}

/// The head of a dataset's chain in a store model.
pub open spec fn head_of(m: Map<DatasetId, Seq<BlockModel>>, id: DatasetId) -> Option<BlockHash> {
    if m.contains_key(id) {
        Some(m[id].last().hash)
    } else {
        None
    }
}

/// The chain of a dataset in a store model, empty when it is absent.
pub open spec fn chain_or_empty(m: Map<DatasetId, Seq<BlockModel>>, id: DatasetId) -> Seq<
    BlockModel,
> {
    if m.contains_key(id) {
        m[id]
    } else {
        Seq::empty()
    }
}

/// Some stored chain holds a block with this hash.
pub open spec fn store_has_hash(m: Map<DatasetId, Seq<BlockModel>>, h: BlockHash) -> bool {
    exists|id: DatasetId, k: int|
        m.contains_key(id) && 0 <= k < m[id].len() && (#[trigger] m[id][k]).hash == h
}

/// The blocks from position `k` of `c` back to the seed, newest first.
pub open spec fn walk_back(c: Seq<BlockModel>, k: int) -> Seq<BlockModel> {
    c.subrange(0, k + 1).reverse()
}

/// `r` is what appending `blocks` to dataset `id` with `expected` as the
/// expected head gives on a store with model `m`.
pub open spec fn append_outcome(
    m: Map<DatasetId, Seq<BlockModel>>,
    id: DatasetId,
    expected: Option<BlockHash>,
    blocks: Seq<BlockModel>,
    r: Result<BlockHash, AppendError>,
) -> bool {
    if head_of(m, id) != expected {
        r == Err::<BlockHash, AppendError>(AppendError::ConcurrentModification)
    } else if blocks.len() == 0 {
        r == Err::<BlockHash, AppendError>(AppendError::NoBlocks)
    } else if extension_ok(expected, blocks) {
        r == Ok::<BlockHash, AppendError>(blocks.last().hash)
    } else {
        r matches Err(AppendError::InvalidChain { .. })
    }
}

/// Every dataset's chain, keyed by its identifier.
pub struct ChainStore {
    chains: Vec<DatasetChain>,
    model: Ghost<Map<DatasetId, Seq<BlockModel>>>,
}

impl View for ChainStore {
    type V = Map<DatasetId, Seq<BlockModel>>;

    closed spec fn view(&self) -> Map<DatasetId, Seq<BlockModel>> {
        self.model@
    }
}

impl ChainStore {
    /// The stored vector matches the model: identifiers are unique, each
    /// entry is the model's chain for its identifier, and every chain in the
    /// model is well formed.
    pub closed spec fn wf(&self) -> bool {
        &&& forall|i: int, j: int|
            0 <= i < j < self.chains@.len() ==> (#[trigger] self.chains@[i]).id
                != (#[trigger] self.chains@[j]).id
        &&& forall|i: int|
            0 <= i < self.chains@.len() ==> self.model@.contains_key(
                (#[trigger] self.chains@[i]).id,
            ) && self.model@[self.chains@[i].id] == blocks_view(self.chains@[i].blocks@)
        &&& forall|id: DatasetId|
            #[trigger] self.model@.contains_key(id) ==> exists|i: int|
                0 <= i < self.chains@.len() && (#[trigger] self.chains@[i]).id == id
        &&& forall|id: DatasetId| #[trigger] self.model@.contains_key(id) ==> is_chain(self.model@[id])
    }

    /// Every chain of a well-formed store is well formed.
    pub proof fn lemma_chains_valid(&self)
        requires
            self.wf(),
        ensures
            forall|id: DatasetId| #[trigger] self@.contains_key(id) ==> is_chain(self@[id]),
    {
    }

    /// An empty store.
    pub fn new() -> (r: ChainStore)
        ensures
            r.wf(),
            r@ == Map::<DatasetId, Seq<BlockModel>>::empty(),
    {
        ChainStore { chains: Vec::new(), model: Ghost(Map::empty()) }
    }

    fn find(&self, id: DatasetId) -> (r: Option<usize>)
        requires
            self.wf(),
        ensures
            match r {
                Some(i) => i < self.chains@.len() && self.chains@[i as int].id == id
                    && self@.contains_key(id),
                None => !self@.contains_key(id) && forall|i: int|
                    0 <= i < self.chains@.len() ==> (#[trigger] self.chains@[i]).id != id,
            },
    {
        let mut i: usize = 0;
        while i < self.chains.len()
            invariant
                self.wf(),
                i <= self.chains@.len(),
                forall|k: int| 0 <= k < i ==> (#[trigger] self.chains@[k]).id != id,
            decreases self.chains@.len() - i,
        {
            if self.chains[i].id == id {
                return Some(i);
            }
            i = i + 1;
        }
        None
    }

    /// The current head of a dataset, or `None` when it is absent.
    pub fn read_ref(&self, id: DatasetId) -> (r: Option<BlockHash>)
        requires
            self.wf(),
        ensures
            r == head_of(self@, id),
    {
        match self.find(id) {
            Some(i) => {
                let blocks = &self.chains[i].blocks;
                let n = blocks.len();
                assert(n > 0);
                Some(blocks[n - 1].hash)
            },
            None => None,
        }
    }

    /// The stored blocks of a dataset, seed first.
    pub fn chain(&self, id: DatasetId) -> (r: Option<&Vec<MetadataBlock>>)
        requires
            self.wf(),
        ensures
            r is Some <==> self@.contains_key(id),
            r matches Some(v) ==> blocks_view(v@) == self@[id],
    {
        match self.find(id) {
            Some(i) => Some(&self.chains[i].blocks),
            None => None,
        }
    }

    /// The identifiers of all stored datasets, in storage order.
    pub fn dataset_ids(&self) -> (r: Vec<DatasetId>)
        requires
            self.wf(),
        ensures
            forall|id: DatasetId| r@.contains(id) <==> self@.contains_key(id),
            r@.no_duplicates(),
    {
        let mut r: Vec<DatasetId> = Vec::new();
        let mut i: usize = 0;
        while i < self.chains.len()
            invariant
                self.wf(),
                i <= self.chains@.len(),
                r@.len() == i,
                forall|k: int| 0 <= k < i ==> r@[k] == (#[trigger] self.chains@[k]).id,
            decreases self.chains@.len() - i,
        {
            r.push(self.chains[i].id);
            i = i + 1;
        }
        assert forall|id: DatasetId| r@.contains(id) <==> self@.contains_key(id) by {
            if self@.contains_key(id) {
                let k = choose|k: int| 0 <= k < self.chains@.len() && (#[trigger] self.chains@[k]).id == id;
                assert(r@[k] == id);
            }
            if r@.contains(id) {
                let k = choose|k: int| 0 <= k < r@.len() && r@[k] == id;
                assert(self.chains@[k].id == id);
            }
        }
        assert forall|a: int, b: int| 0 <= a < r@.len() && 0 <= b < r@.len() && a != b implies r@[a]
            != r@[b] by {
            if a < b {
                assert(self.chains@[a].id != self.chains@[b].id);
            } else {
                assert(self.chains@[b].id != self.chains@[a].id);
            }
        }
        r
    }

    /// A block by its hash.
    pub fn get_block(&self, hash: BlockHash) -> (r: Result<MetadataBlock, BlockNotFound>)
        requires
            self.wf(),
        ensures
            r is Err <==> !store_has_hash(self@, hash),
            r matches Err(e) ==> e.hash == hash,
            r matches Ok(b) ==> b@.hash == hash && exists|id: DatasetId, k: int|
                self@.contains_key(id) && 0 <= k < self@[id].len() && (#[trigger] self@[id][k]) == b@,
    {
        match self.locate(hash) {
            Some((i, k)) => {
                let b = self.chains[i].blocks[k].copy();
                proof {
                    let id = self.chains@[i as int].id;
                    assert(self@[id][k as int] == b@);
                }
                Ok(b)
            },
            None => Err(BlockNotFound { hash }),
        }
    }

    fn locate(&self, hash: BlockHash) -> (r: Option<(usize, usize)>)
        requires
            self.wf(),
        ensures
            r is None <==> !store_has_hash(self@, hash),
            r matches Some((i, k)) ==> i < self.chains@.len() && k < self.chains@[i as int].blocks@.len()
                && self.chains@[i as int].blocks@[k as int].hash == hash,
    {
        let mut i: usize = 0;
        while i < self.chains.len()
            invariant
                self.wf(),
                i <= self.chains@.len(),
                forall|a: int, k: int|
                    0 <= a < i && 0 <= k < self.chains@[a].blocks@.len() ==> (
                    #[trigger] self.chains@[a].blocks@[k]).hash != hash,
            decreases self.chains@.len() - i,
        {
            let blocks = &self.chains[i].blocks;
            let mut k: usize = 0;
            while k < blocks.len()
                invariant
                    self.wf(),
                    i < self.chains@.len(),
                    blocks == &self.chains@[i as int].blocks,
                    k <= blocks@.len(),
                    forall|a: int, k2: int|
                        0 <= a < i && 0 <= k2 < self.chains@[a].blocks@.len() ==> (
                        #[trigger] self.chains@[a].blocks@[k2]).hash != hash,
                    forall|k2: int| 0 <= k2 < k ==> (#[trigger] blocks@[k2]).hash != hash,
                decreases blocks@.len() - k,
            {
                if blocks[k].hash == hash {
                    proof {
                        let id = self.chains@[i as int].id;
                        assert(self@[id][k as int].hash == hash);
                    }
                    return Some((i, k));
                }
                k = k + 1;
            }
            i = i + 1;
        }
        proof {
            if store_has_hash(self@, hash) {
                let (id, k) = choose|id: DatasetId, k: int|
                    self@.contains_key(id) && 0 <= k < self@[id].len() && (#[trigger] self@[id][k]).hash == hash;
                let a = choose|a: int| 0 <= a < self.chains@.len() && (#[trigger] self.chains@[a]).id == id;
                assert(self.chains@[a].blocks@[k]@.hash == hash);
            }
        }
        None
    }

    /// Appends `new_blocks` to a dataset's chain, starting the chain when
    /// `expected_head` is `None`, provided the current head is
    /// `expected_head`; returns the new head. The store changes only on
    /// success.
    pub fn append_blocks(
        &mut self,
        id: DatasetId,
        expected_head: Option<BlockHash>,
        new_blocks: Vec<MetadataBlock>,
    ) -> (r: Result<BlockHash, AppendError>)
        requires
            old(self).wf(),
        ensures
            final(self).wf(),
            append_outcome(old(self)@, id, expected_head, blocks_view(new_blocks@), r),
            head_of(old(self)@, id) != expected_head ==> r == Err::<BlockHash, AppendError>(
                AppendError::ConcurrentModification,
            ),
            head_of(old(self)@, id) == expected_head && new_blocks@.len() == 0 ==> r == Err::<
                BlockHash,
                AppendError,
            >(AppendError::NoBlocks),
            head_of(old(self)@, id) == expected_head && new_blocks@.len() > 0 ==> (r is Ok
                <==> extension_ok(expected_head, blocks_view(new_blocks@))),
            r is Err ==> final(self)@ == old(self)@,
            r matches Err(AppendError::InvalidChain { .. }) ==> head_of(old(self)@, id)
                == expected_head && new_blocks@.len() > 0,
            r matches Ok(h) ==> h == new_blocks@.last().hash && final(self)@ == old(self)@.insert(
                id,
                chain_or_empty(old(self)@, id) + blocks_view(new_blocks@),
            ),
    {
        let current = self.read_ref(id);
        if current != expected_head {
            return Err(AppendError::ConcurrentModification);
        }
        if new_blocks.len() == 0 {
            return Err(AppendError::NoBlocks);
        }
        match check_extension(expected_head, &new_blocks) {
            Err(e) => {
                return Err(AppendError::InvalidChain { error: e });
            },
            Ok(()) => {},
        }
        let n = new_blocks.len();
        let head = new_blocks[n - 1].hash;
        assert(blocks_view(new_blocks@).last() == new_blocks@[n - 1]@);
        let ghost old_model = self.model@;
        let ghost old_chains = self.chains@;
        let ghost added = blocks_view(new_blocks@);
        let mut new_blocks = new_blocks;
        match self.find(id) {
            Some(i) => {
                let mut entry = self.chains.remove(i);
                let ghost before = blocks_view(entry.blocks@);
                proof {
                    assert(before == old_model[id]);
                    assert(before.len() > 0);
                    lemma_extend_chain(before, added);
                }
                entry.blocks.append(&mut new_blocks);
                assert(blocks_view(entry.blocks@) =~= before + added);
                self.chains.insert(i, entry);
                self.model = Ghost(old_model.insert(id, before + added));
                proof {
                    assert(self.chains@ =~= old_chains.update(i as int, self.chains@[i as int]));
                    assert forall|k: int| 0 <= k < self.chains@.len() && k != i implies
                        #[trigger] self.chains@[k] == old_chains[k] by {}
                    assert forall|x: DatasetId| #[trigger] self.model@.contains_key(x) implies exists|k: int|
                        0 <= k < self.chains@.len() && (#[trigger] self.chains@[k]).id == x by {
                        if x != id {
                            let k = choose|k: int| 0 <= k < old_chains.len() && (#[trigger] old_chains[k]).id == x;
                            assert(self.chains@[k].id == x);
                        } else {
                            assert(self.chains@[i as int].id == x);
                        }
                    }
                }
            },
            None => {
                proof {
                    lemma_extend_chain(Seq::empty(), added);
                    assert(Seq::<BlockModel>::empty() + added =~= added);
                }
                let mut blocks: Vec<MetadataBlock> = Vec::new();
                blocks.append(&mut new_blocks);
                self.chains.push(DatasetChain { id, blocks });
                self.model = Ghost(old_model.insert(id, added));
                proof {
                    let last = self.chains@.len() - 1;
                    assert(blocks_view(self.chains@[last].blocks@) =~= added);
                    assert forall|k: int| 0 <= k < last implies #[trigger] self.chains@[k] == old_chains[k] by {}
                    assert(chain_or_empty(old_model, id) + added =~= added);
                    assert forall|x: DatasetId| #[trigger] self.model@.contains_key(x) implies exists|k: int|
                        0 <= k < self.chains@.len() && (#[trigger] self.chains@[k]).id == x by {
                        if x != id {
                            let k = choose|k: int| 0 <= k < old_chains.len() && (#[trigger] old_chains[k]).id == x;
                            assert(self.chains@[k].id == x);
                        } else {
                            assert(self.chains@[last].id == x);
                        }
                    }
                }
            },
        }
        Ok(head)
    }

    /// The blocks from the one with `hash` back to the seed, newest first.
    /// Each call walks afresh.
    pub fn iterate_from(&self, hash: BlockHash) -> (r: Result<Vec<MetadataBlock>, BlockNotFound>)
        requires
            self.wf(),
        ensures
            r is Err <==> !store_has_hash(self@, hash),
            r matches Ok(v) ==> exists|id: DatasetId, k: int|
                self@.contains_key(id) && 0 <= k < self@[id].len() && (#[trigger] self@[id][k]).hash == hash
                    && blocks_view(v@) == walk_back(self@[id], k),
    {
        match self.locate(hash) {
            None => Err(BlockNotFound { hash }),
            Some((i, k)) => {
                let blocks = &self.chains[i].blocks;
                let ghost c = blocks_view(blocks@);
                assert(k < blocks.len());
                let mut out: Vec<MetadataBlock> = Vec::new();
                let mut j: usize = k + 1;
                while j > 0
                    invariant
                        j <= k + 1,
                        k < blocks@.len(),
                        c == blocks_view(blocks@),
                        blocks_view(out@) == c.subrange(j as int, k + 1).reverse(),
                    decreases j,
                {
                    j = j - 1;
                    let b = blocks[j].copy();
                    let ghost prev = blocks_view(out@);
                    assert(b@ == c[j as int]);
                    out.push(b);
                    assert(blocks_view(out@) =~= prev.push(c[j as int]));
                    assert(c.subrange(j as int, k + 1).reverse() =~= c.subrange(j + 1, k + 1).reverse().push(
                        c[j as int],
                    ));
                }
                proof {
                    let id = self.chains@[i as int].id;
                    assert(self@[id] == c);
                    assert(self@[id][k as int].hash == hash);
                }
                Ok(out)
            },
        }
    }

    /// The graph of stored datasets with the kinds their seeds declare and
    /// the inputs their latest transformations declare.
    pub fn dependency_graph(&self) -> (r: DatasetGraph)
        requires
            self.wf(),
        ensures
            r.wf(),
            forall|id: DatasetId| #[trigger] in_graph(r.model(), id) <==> self@.contains_key(id),
            forall|id: DatasetId|
                #[trigger] self@.contains_key(id) ==> inputs_of(r.model(), id) == chain_inputs(self@[id])
                    && kind_of(r.model(), id) == chain_kind(self@[id]),
    {
        let mut nodes: Vec<DatasetNode> = Vec::new();
        let mut i: usize = 0;
        while i < self.chains.len()
            invariant
                self.wf(),
                i <= self.chains@.len(),
                nodes@.len() == i,
                forall|k: int|
                    0 <= k < i ==> (#[trigger] nodes@[k]).id == self.chains@[k].id && nodes@[k].inputs@
                        == chain_inputs(blocks_view(self.chains@[k].blocks@)) && nodes@[k].kind
                        == chain_kind(blocks_view(self.chains@[k].blocks@)),
            decreases self.chains@.len() - i,
        {
            let c = &self.chains[i];
            let node = DatasetNode {
                id: c.id,
                kind: dataset_kind(&c.blocks),
                inputs: transform_inputs(&c.blocks),
            };
            nodes.push(node);
            i = i + 1;
        }
        let r = DatasetGraph { nodes };
        proof {
            let m = r.model();
            assert forall|a: int, b: int| 0 <= a < b < r.nodes@.len() implies (#[trigger] r.nodes@[a]).id
                != (#[trigger] r.nodes@[b]).id by {
                assert(self.chains@[a].id != self.chains@[b].id);
            }
            assert forall|id: DatasetId| #[trigger] in_graph(m, id) <==> self@.contains_key(id) by {
                if in_graph(m, id) {
                    let k = choose|k: int| 0 <= k < m.len() && (#[trigger] m[k]).id == id;
                    assert(r.nodes@[k].id == id);
                    assert(self.chains@[k].id == id);
                }
                if self@.contains_key(id) {
                    let k = choose|k: int| 0 <= k < self.chains@.len() && (#[trigger] self.chains@[k]).id == id;
                    assert(m[k].id == id);
                }
            }
            assert forall|id: DatasetId| #[trigger] self@.contains_key(id) implies inputs_of(m, id)
                == chain_inputs(self@[id]) && kind_of(m, id) == chain_kind(self@[id]) by {
                let k = choose|k: int| 0 <= k < self.chains@.len() && (#[trigger] self.chains@[k]).id == id;
                assert(m[k].id == id);
                let c = choose|c: int| 0 <= c < m.len() && (#[trigger] m[c]).id == id;
                assert(r.nodes@[c].id == id);
                if c != k {
                    if c < k {
                        assert(self.chains@[c].id != self.chains@[k].id);
                    } else {
                        assert(self.chains@[k].id != self.chains@[c].id);
                    }
                }
            }
        }
        r
    }
}

} // verus!
