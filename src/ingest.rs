//! Ingestion of root datasets: outcomes, progress listeners, errors, and the
//! commit of an engine's new blocks onto the dataset's chain.

use crate::chain_store::{AppendError, ChainStore, append_outcome, chain_or_empty};
use crate::hash::BlockHash;
use crate::metadata::{BlockModel, DatasetId, MetadataBlock, blocks_view};
use vstd::prelude::*;

verus! {

/// The outcome of an ingest that succeeded.
#[derive(Clone, Copy, Debug, PartialEq, Eq, Structural)]
pub enum IngestResult {
    UpToDate,
    Updated { block_hash: BlockHash },
}

/// The stages an ingest goes through, for progress reports.
#[derive(Clone, Copy, Debug, PartialEq, Eq, Structural)]
pub enum IngestStage {
    CheckCache,
    Fetch,
    Prepare,
    Read,
    Preprocess,
    Merge,
    Commit,
}

/// Receives progress of one dataset's ingest.
pub trait IngestListener {
    fn begin(&mut self);

    fn on_stage_progress(&mut self, stage: IngestStage, n: u64, out_of: u64);

    fn warn_uncacheable(&mut self);

    fn success(&mut self, result: &IngestResult);

    fn error(&mut self, stage: IngestStage, error: &IngestError);
}

/// A listener that ignores every report.
#[derive(Clone, Copy, Debug)]
pub struct NullIngestListener;

impl IngestListener for NullIngestListener {
    fn begin(&mut self) {
    }

    fn on_stage_progress(&mut self, stage: IngestStage, n: u64, out_of: u64) {
    }

    fn warn_uncacheable(&mut self) {
    }

    fn success(&mut self, result: &IngestResult) {
    }

    fn error(&mut self, stage: IngestStage, error: &IngestError) {
    }
}

/// Hands out a listener for each dataset of a multi-dataset ingest.
pub trait IngestMultiListener {
    type Listener: IngestListener;

    fn begin_ingest(&mut self, dataset_id: DatasetId) -> Option<Self::Listener>;
}

/// Hands out no listeners.
#[derive(Clone, Copy, Debug)]
pub struct NullIngestMultiListener;

impl IngestMultiListener for NullIngestMultiListener {
    type Listener = NullIngestListener;

    fn begin_ingest(&mut self, dataset_id: DatasetId) -> (r: Option<NullIngestListener>)
        ensures
            r is None,
    {
        None
    }
}

/// A failure to provide a compute engine.
#[derive(Clone, Debug)]
pub enum EngineError {
    /// The engine or its image is unknown or could not be pulled.
    ImageNotFound { image_name: String },
    /// The engine could not be started or failed while running.
    Unavailable { message: String },
}

impl EngineError {
    pub fn image_not_found(image_name: &str) -> (r: EngineError)
        ensures
            r matches EngineError::ImageNotFound { image_name: n } && n@ == image_name@,
    {
        EngineError::ImageNotFound { image_name: image_name.to_owned() }
    }
}

/// Why an ingest failed.
#[derive(Clone, Debug)]
pub enum IngestError {
    /// The source data was not found.
    NotFound { path: String },
    /// The engine could not run.
    EngineError { error: EngineError },
    /// Anything else that went wrong.
    InternalError { message: String },
    /// The chain store refused the new blocks.
    CommitError { error: AppendError },
}

impl IngestError {
    /// The source at `path` was not found.
    pub fn not_found(path: &str) -> (r: IngestError)
        ensures
            r matches IngestError::NotFound { path: p } && p@ == path@,
    {
        IngestError::NotFound { path: path.to_owned() }
    }

    /// An internal failure with a description.
    pub fn internal(message: String) -> (r: IngestError)
        ensures
            r matches IngestError::InternalError { message: m } && m@ == message@,
    {
        IngestError::InternalError { message }
    }
}

/// What an ingest or transform engine produced for a dataset.
#[derive(Debug)]
pub enum EngineOutput {
    UpToDate,
    NewBlocks { blocks: Vec<MetadataBlock> },
}

/// The ingest collaborator: runs a dataset's ingest and hands back the new
/// blocks, which the library then commits.
pub trait IngestService {
    fn ingest(&mut self, dataset_id: DatasetId, head: Option<BlockHash>) -> Result<EngineOutput, IngestError>;
}

/// Turns an engine's output into an ingest result, committing new blocks.
pub struct IngestServiceImpl {
    pub local_volume_dir: String,
}

/// `r` is what committing the engine output `output` gives on a store whose
/// model was `before` and is `after`.
pub open spec fn commit_outcome(
    before: Map<DatasetId, Seq<BlockModel>>,
    after: Map<DatasetId, Seq<BlockModel>>,
    id: DatasetId,
    expected: Option<BlockHash>,
    output: Result<EngineOutputModel, IngestError>,
    r: Result<IngestResult, IngestError>,
) -> bool {
    match output {
        Err(e) => r == Err::<IngestResult, IngestError>(e) && after == before,
        Ok(EngineOutputModel::UpToDate) => r == Ok::<IngestResult, IngestError>(IngestResult::UpToDate)
            && after == before,
        Ok(EngineOutputModel::NewBlocks { blocks }) => match r {
            Ok(IngestResult::Updated { block_hash }) => append_outcome(before, id, expected, blocks, Ok(block_hash))
                && after == before.insert(id, chain_or_empty(before, id) + blocks),
            Err(IngestError::CommitError { error }) => append_outcome(before, id, expected, blocks, Err(error))
                && after == before,
            _ => false,
        },
    }
}

/// The view of an `EngineOutput`.
pub enum EngineOutputModel {
    UpToDate,
    NewBlocks { blocks: Seq<BlockModel> },
}

pub open spec fn output_view(o: Result<EngineOutput, IngestError>) -> Result<EngineOutputModel, IngestError> {
    match o {
        Ok(EngineOutput::UpToDate) => Ok(EngineOutputModel::UpToDate),
        Ok(EngineOutput::NewBlocks { blocks }) => Ok(EngineOutputModel::NewBlocks { blocks: blocks_view(blocks@) }),
        Err(e) => Err(e),
    }
}

impl IngestServiceImpl {
    pub fn new(local_volume_dir: &str) -> (r: IngestServiceImpl)
        ensures
            r.local_volume_dir@ == local_volume_dir@,
    {
        IngestServiceImpl { local_volume_dir: local_volume_dir.to_owned() }
    }

    /// Commits what the engine produced for a dataset whose head was
    /// `expected_head` when the ingest began.
    pub fn commit(
        &self,
        store: &mut ChainStore,
        id: DatasetId,
        expected_head: Option<BlockHash>,
        output: Result<EngineOutput, IngestError>,
    ) -> (r: Result<IngestResult, IngestError>)
        requires
            old(store).wf(),
        ensures
            final(store).wf(),
            commit_outcome(old(store)@, final(store)@, id, expected_head, output_view(output), r),
            final(store)@.contains_key(id) ==> crate::chain::chain_check(final(store)@[id]),
            (output_view(output) matches Ok(EngineOutputModel::NewBlocks { .. }) && crate::chain_store::head_of(
                old(store)@,
                id,
            ) != expected_head) ==> r == Err::<IngestResult, IngestError>(
                IngestError::CommitError { error: AppendError::ConcurrentModification },
            ) && final(store)@ == old(store)@,
    {
        let r = match output {
            Err(e) => Err(e),
            Ok(EngineOutput::UpToDate) => Ok(IngestResult::UpToDate),
            Ok(EngineOutput::NewBlocks { blocks }) => {
                match store.append_blocks(id, expected_head, blocks) {
                    Ok(h) => Ok(IngestResult::Updated { block_hash: h }),
                    Err(e) => Err(IngestError::CommitError { error: e }),
                }
            },
        };
        proof {
            store.lemma_chains_valid();
            if store@.contains_key(id) {
                crate::chain::lemma_chain_validates(store@[id]);
            }
        }
        r
    }
}

impl EngineError {
    /// A copy of the error.
    pub fn copy(&self) -> (r: EngineError)
        ensures
            r == *self,
    {
        match self {
            EngineError::ImageNotFound { image_name } => EngineError::ImageNotFound { image_name: image_name.clone() },
            EngineError::Unavailable { message } => EngineError::Unavailable { message: message.clone() },
        }
    }
}

impl IngestError {
    /// A copy of the error.
    pub fn copy(&self) -> (r: IngestError)
        ensures
            r == *self,
    {
        match self {
            IngestError::NotFound { path } => IngestError::NotFound { path: path.clone() },
            IngestError::EngineError { error } => IngestError::EngineError { error: error.copy() },
            IngestError::InternalError { message } => IngestError::InternalError { message: message.clone() },
            IngestError::CommitError { error } => IngestError::CommitError { error: *error },
        }
    }
}

} // verus!
