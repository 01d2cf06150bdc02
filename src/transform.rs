//! Transformation of derivative datasets: outcomes, errors, and the
//! randomized stand-in engine.

use crate::chain_store::{AppendError, ChainStore, append_outcome, chain_or_empty};
use crate::encoding::block_hash_spec;
use crate::hash::BlockHash;
use crate::ingest::{EngineOutput, EngineOutputModel};
use crate::metadata::{BlockModel, DatasetId, EventModel, MetadataBlock, MetadataEvent, blocks_view};
use vstd::map::Map;
use vstd::prelude::*;

verus! {

/// Relies on `rand::random` (rand 0.8): a value drawn from the thread-local
/// generator; nothing is known of which.
pub assume_specification<T>[ rand::random::<T> ]() -> (r: T)
    where
        rand::distributions::Standard: rand::distributions::Distribution<T>,
;

/// The outcome of a transformation that succeeded.
#[derive(Clone, Copy, Debug, PartialEq, Eq, Structural)]
pub enum TransformResult {
    UpToDate,
    Updated { block_hash: BlockHash },
}

/// Why a transformation failed.
#[derive(Clone, Copy, Debug, PartialEq, Eq, Structural)]
pub enum TransformError {
    /// The engine failed.
    EngineError,
    /// The chain store refused the new blocks.
    CommitError { error: AppendError },
}

/// Draws below this bound, out of 2^32, fail (three in ten).
pub const FAILURE_BOUND: u32 = 1288490189;

/// Draws below this bound, out of 2^32, are up to date (three in ten).
pub const UP_TO_DATE_BOUND: u32 = 1288490189;

/// Runs transformations of derivative datasets.
pub struct TransformServiceImpl {
    pub system_time: i64,
}

/// The view of what the stand-in engine produces for two draws.
pub open spec fn simulated_spec(
    fail_draw: u32,
    up_to_date_draw: u32,
    head: Option<BlockHash>,
    system_time: i64,
) -> Result<EngineOutputModel, TransformError> {
    if fail_draw < FAILURE_BOUND {
        Err(TransformError::EngineError)
    } else if up_to_date_draw < UP_TO_DATE_BOUND {
        Ok(EngineOutputModel::UpToDate)
    } else {
        let e = EventModel::ExecuteTransform { offset_start: 0, offset_end: 0 };
        Ok(
            EngineOutputModel::NewBlocks {
                blocks: seq![BlockModel { hash: block_hash_spec(head, system_time, e), prev: head, system_time, event: e }],
            },
        )
    }
}

pub open spec fn transform_output_view(o: Result<EngineOutput, TransformError>) -> Result<
    EngineOutputModel,
    TransformError,
> {
    match o {
        Ok(EngineOutput::UpToDate) => Ok(EngineOutputModel::UpToDate),
        Ok(EngineOutput::NewBlocks { blocks }) => Ok(EngineOutputModel::NewBlocks { blocks: blocks_view(blocks@) }),
        Err(e) => Err(e),
    }
}

impl TransformServiceImpl {
    pub fn new(system_time: i64) -> (r: TransformServiceImpl)
        ensures
            r.system_time == system_time,
    {
        TransformServiceImpl { system_time }
    }

    /// What the stand-in engine produces for the given draws: a failure for
    /// a low first draw, else nothing new for a low second draw, else one
    /// `ExecuteTransform` block on top of `head`.
    pub fn simulated_output(
        &self,
        fail_draw: u32,
        up_to_date_draw: u32,
        head: Option<BlockHash>,
    ) -> (r: Result<EngineOutput, TransformError>)
        ensures
            transform_output_view(r) == simulated_spec(fail_draw, up_to_date_draw, head, self.system_time),
    {
        if fail_draw < FAILURE_BOUND {
            Err(TransformError::EngineError)
        } else if up_to_date_draw < UP_TO_DATE_BOUND {
            Ok(EngineOutput::UpToDate)
        } else {
            let b = MetadataBlock::new(
                head,
                self.system_time,
                MetadataEvent::ExecuteTransform { offset_start: 0, offset_end: 0 },
            );
            let mut blocks: Vec<MetadataBlock> = Vec::new();
            blocks.push(b);
            let ghost e = EventModel::ExecuteTransform { offset_start: 0, offset_end: 0 };
            assert(blocks_view(blocks@) =~= seq![BlockModel { hash: block_hash_spec(head, self.system_time, e), prev: head, system_time: self.system_time, event: e }]);
            Ok(EngineOutput::NewBlocks { blocks })
        }
    }

    /// Runs the stand-in engine for a dataset whose head is `head`, with two
    /// random draws.
    pub fn do_transform(&self, dataset_id: DatasetId, head: Option<BlockHash>) -> (r: Result<
        EngineOutput,
        TransformError,
    >)
        ensures
            exists|a: u32, b: u32| transform_output_view(r) == simulated_spec(a, b, head, self.system_time),
    {
        let fail_draw: u32 = rand::random();
        let up_to_date_draw: u32 = rand::random();
        self.simulated_output(fail_draw, up_to_date_draw, head)
    }
}

/// `r` is what committing the engine output `output` gives on a store whose
/// model was `before` and is `after`.
pub open spec fn transform_commit_outcome(
    before: Map<DatasetId, Seq<BlockModel>>,
    after: Map<DatasetId, Seq<BlockModel>>,
    id: DatasetId,
    expected: Option<BlockHash>,
    output: Result<EngineOutputModel, TransformError>,
    r: Result<TransformResult, TransformError>,
) -> bool {
    match output {
        Err(e) => r == Err::<TransformResult, TransformError>(e) && after == before,
        Ok(EngineOutputModel::UpToDate) => r == Ok::<TransformResult, TransformError>(TransformResult::UpToDate)
            && after == before,
        Ok(EngineOutputModel::NewBlocks { blocks }) => match r {
            Ok(TransformResult::Updated { block_hash }) => append_outcome(before, id, expected, blocks, Ok(block_hash))
                && after == before.insert(id, chain_or_empty(before, id) + blocks),
            Err(TransformError::CommitError { error }) => append_outcome(before, id, expected, blocks, Err(error))
                && after == before,
            _ => false,
        },
    }
}

impl TransformServiceImpl {
    /// Commits what the engine produced for a dataset whose head was
    /// `expected_head` when the transformation began.
    pub fn commit(
        &self,
        store: &mut ChainStore,
        id: DatasetId,
        expected_head: Option<BlockHash>,
        output: Result<EngineOutput, TransformError>,
    ) -> (r: Result<TransformResult, TransformError>)
        requires
            old(store).wf(),
        ensures
            final(store).wf(),
            transform_commit_outcome(old(store)@, final(store)@, id, expected_head, transform_output_view(output), r),
            final(store)@.contains_key(id) ==> crate::chain::chain_check(final(store)@[id]),
            (transform_output_view(output) matches Ok(EngineOutputModel::NewBlocks { .. }) && crate::chain_store::head_of(
                old(store)@,
                id,
            ) != expected_head) ==> r == Err::<TransformResult, TransformError>(
                TransformError::CommitError { error: AppendError::ConcurrentModification },
            ) && final(store)@ == old(store)@,
    {
        let r = match output {
            Err(e) => Err(e),
            Ok(EngineOutput::UpToDate) => Ok(TransformResult::UpToDate),
            Ok(EngineOutput::NewBlocks { blocks }) => match store.append_blocks(id, expected_head, blocks) {
                Ok(h) => Ok(TransformResult::Updated { block_hash: h }),
                Err(e) => Err(TransformError::CommitError { error: e }),
            },
        };
        proof {
            store.lemma_chains_valid();
            if store@.contains_key(id) {
                crate::chain::lemma_chain_validates(store@[id]);
            }
        }
        r
    }
}

} // verus!
