//! Metadata events and blocks, and their mathematical views.

use crate::defaults::DatasetVocabulary;
use crate::hash::BlockHash;
use vstd::prelude::*;

verus! {

/// Identifier of a dataset.
pub type DatasetId = u64;

/// Whether a dataset ingests external data or is computed from others.
#[derive(Clone, Copy, Debug, PartialEq, Eq, Structural)]
pub enum DatasetKind {
    Root,
    Derivative,
}

/// Which synchronization a remote alias permits.
#[derive(Clone, Copy, Debug, PartialEq, Eq, Structural)]
pub enum RemoteAliasKind {
    Pull,
    Push,
}

/// The typed payload of a metadata block.
#[derive(Debug)]
#[allow(inconsistent_fields)]
pub enum MetadataEvent {
    Seed { dataset_id: DatasetId, kind: DatasetKind },
    AddData { offset_start: u64, offset_end: u64 },
    SetWatermark { watermark: i64 },
    SetVocabulary { vocab: DatasetVocabulary },
    SetAttachments { path: String, content: String },
    SetInfo { description: String },
    SetLicense { short_name: String },
    SetTransform { inputs: Vec<DatasetId>, engine: String, query: String },
    ExecuteTransform { offset_start: u64, offset_end: u64 },
    SetRemoteAlias { url: String, kind: RemoteAliasKind },
}

/// The view of a `MetadataEvent`.
#[allow(inconsistent_fields)]
pub enum EventModel {
    Seed { dataset_id: DatasetId, kind: DatasetKind },
    AddData { offset_start: u64, offset_end: u64 },
    SetWatermark { watermark: i64 },
    SetVocabulary { system_time_column: Option<Seq<char>>, event_time_column: Option<Seq<char>> },
    SetAttachments { path: Seq<char>, content: Seq<char> },
    SetInfo { description: Seq<char> },
    SetLicense { short_name: Seq<char> },
    SetTransform { inputs: Seq<DatasetId>, engine: Seq<char>, query: Seq<char> },
    ExecuteTransform { offset_start: u64, offset_end: u64 },
    SetRemoteAlias { url: Seq<char>, kind: RemoteAliasKind },
}

pub open spec fn opt_str_view(o: Option<String>) -> Option<Seq<char>> {
    match o {
        Some(s) => Some(s@),
        None => None,
    }
}

impl View for MetadataEvent {
    type V = EventModel;

    open spec fn view(&self) -> EventModel {
        match self {
            MetadataEvent::Seed { dataset_id, kind } => EventModel::Seed {
                dataset_id: *dataset_id,
                kind: *kind,
            },
            MetadataEvent::AddData { offset_start, offset_end } => EventModel::AddData {
                offset_start: *offset_start,
                offset_end: *offset_end,
            },
            MetadataEvent::SetWatermark { watermark } => EventModel::SetWatermark {
                watermark: *watermark,
            },
            MetadataEvent::SetVocabulary { vocab } => EventModel::SetVocabulary {
                system_time_column: opt_str_view(vocab.system_time_column),
                event_time_column: opt_str_view(vocab.event_time_column),
            },
            MetadataEvent::SetAttachments { path, content } => EventModel::SetAttachments {
                path: path@,
                content: content@,
            },
            MetadataEvent::SetInfo { description } => EventModel::SetInfo {
                description: description@,
            },
            MetadataEvent::SetLicense { short_name } => EventModel::SetLicense {
                short_name: short_name@,
            },
            MetadataEvent::SetTransform { inputs, engine, query } => EventModel::SetTransform {
                inputs: inputs@,
                engine: engine@,
                query: query@,
            },
            MetadataEvent::ExecuteTransform { offset_start, offset_end } =>
                EventModel::ExecuteTransform { offset_start: *offset_start, offset_end: *offset_end },
            MetadataEvent::SetRemoteAlias { url, kind } => EventModel::SetRemoteAlias {
                url: url@,
                kind: *kind,
            },
        }
    }
}

fn copy_opt_string(o: &Option<String>) -> (r: Option<String>)
    ensures
        opt_str_view(r) == opt_str_view(*o),
{
    match o {
        Some(s) => Some(s.clone()),
        None => None,
    }
}

/// A copy of a list of dataset identifiers.
pub fn copy_ids(v: &Vec<DatasetId>) -> (r: Vec<DatasetId>)
    ensures
        r@ == v@,
{
    let mut r: Vec<DatasetId> = Vec::new();
    let mut i: usize = 0;
    while i < v.len()
        invariant
            i <= v@.len(),
            r@ == v@.subrange(0, i as int),
        decreases v@.len() - i,
    {
        r.push(v[i]);
        i = i + 1;
        assert(r@ =~= v@.subrange(0, i as int));
    }
    assert(r@ =~= v@);
    r
}

impl MetadataEvent {
    /// A copy of the event.
    pub fn copy(&self) -> (r: MetadataEvent)
        ensures
            r@ == self@,
    {
        match self {
            MetadataEvent::Seed { dataset_id, kind } => MetadataEvent::Seed {
                dataset_id: *dataset_id,
                kind: *kind,
            },
            MetadataEvent::AddData { offset_start, offset_end } => MetadataEvent::AddData {
                offset_start: *offset_start,
                offset_end: *offset_end,
            },
            MetadataEvent::SetWatermark { watermark } => MetadataEvent::SetWatermark {
                watermark: *watermark,
            },
            MetadataEvent::SetVocabulary { vocab } => MetadataEvent::SetVocabulary {
                vocab: DatasetVocabulary {
                    system_time_column: copy_opt_string(&vocab.system_time_column),
                    event_time_column: copy_opt_string(&vocab.event_time_column),
                },
            },
            MetadataEvent::SetAttachments { path, content } => MetadataEvent::SetAttachments {
                path: path.clone(),
                content: content.clone(),
            },
            MetadataEvent::SetInfo { description } => MetadataEvent::SetInfo {
                description: description.clone(),
            },
            MetadataEvent::SetLicense { short_name } => MetadataEvent::SetLicense {
                short_name: short_name.clone(),
            },
            MetadataEvent::SetTransform { inputs, engine, query } => MetadataEvent::SetTransform {
                inputs: copy_ids(inputs),
                engine: engine.clone(),
                query: query.clone(),
            },
            MetadataEvent::ExecuteTransform { offset_start, offset_end } =>
                MetadataEvent::ExecuteTransform {
                offset_start: *offset_start,
                offset_end: *offset_end,
            },
            MetadataEvent::SetRemoteAlias { url, kind } => MetadataEvent::SetRemoteAlias {
                url: url.clone(),
                kind: *kind,
            },
        }
    }

    /// Whether this is a `Seed` event.
    pub fn is_seed(&self) -> (r: bool)
        ensures
            r == self@ is Seed,
    {
        match self {
            MetadataEvent::Seed { .. } => true,
            _ => false,
        }
    }
}

/// An immutable, hash-identified unit of dataset history.
#[derive(Debug)]
pub struct MetadataBlock {
    pub hash: BlockHash,
    pub prev_block_hash: Option<BlockHash>,
    pub system_time: i64,
    pub event: MetadataEvent,
}

/// The view of a `MetadataBlock`.
pub struct BlockModel {
    pub hash: BlockHash,
    pub prev: Option<BlockHash>,
    pub system_time: i64,
    pub event: EventModel,
}

impl View for MetadataBlock {
    type V = BlockModel;

    open spec fn view(&self) -> BlockModel {
        BlockModel {
            hash: self.hash,
            prev: self.prev_block_hash,
            system_time: self.system_time,
            event: self.event@,
        }
    }
}

/// The views of a list of blocks.
pub open spec fn blocks_view(v: Seq<MetadataBlock>) -> Seq<BlockModel> {
    v.map_values(|b: MetadataBlock| b@)
}

impl MetadataBlock {
    /// A copy of the block.
    pub fn copy(&self) -> (r: MetadataBlock)
        ensures
            r@ == self@,
    {
        MetadataBlock {
            hash: self.hash,
            prev_block_hash: self.prev_block_hash,
            system_time: self.system_time,
            event: self.event.copy(),
        }
    }
}

} // verus!
