//! Canonical byte encoding of block content, and block hashing.
//!
//! Integers are written as eight big-endian bytes, strings as their UTF-8
//! byte length followed by the bytes, optional values behind a `0` / `1`
//! tag, and each event behind a one-byte variant tag.

use crate::hash::{hash_of_bytes, BlockHash};
use crate::metadata::{BlockModel, DatasetKind, EventModel, MetadataBlock, MetadataEvent, RemoteAliasKind, opt_str_view};
use vstd::prelude::*;
use vstd::utf8::encode_utf8;

verus! {

/// The eight big-endian bytes of a word.
pub open spec fn u64_bytes(x: u64) -> Seq<u8> {
    seq![
        (x / 0x100000000000000 % 256) as u8,
        (x / 0x1000000000000 % 256) as u8,
        (x / 0x10000000000 % 256) as u8,
        (x / 0x100000000 % 256) as u8,
        (x / 0x1000000 % 256) as u8,
        (x / 0x10000 % 256) as u8,
        (x / 0x100 % 256) as u8,
        (x % 256) as u8,
    ]
}

/// A string as its UTF-8 length and bytes.
pub open spec fn str_bytes(s: Seq<char>) -> Seq<u8> {
    u64_bytes(encode_utf8(s).len() as u64) + encode_utf8(s)
}

pub open spec fn opt_str_bytes(o: Option<Seq<char>>) -> Seq<u8> {
    match o {
        Some(s) => seq![1u8] + str_bytes(s),
        None => seq![0u8],
    }
}

/// Concatenated words, without a length.
pub open spec fn words_bytes(s: Seq<u64>) -> Seq<u8>
    decreases s.len(),
{
    if s.len() == 0 {
        Seq::empty()
    } else {
        words_bytes(s.drop_last()) + u64_bytes(s.last())
    }
}

pub open spec fn hash_bytes(h: BlockHash) -> Seq<u8> {
    u64_bytes(h.w0) + u64_bytes(h.w1) + u64_bytes(h.w2) + u64_bytes(h.w3)
}

pub open spec fn kind_byte(k: DatasetKind) -> u8 {
    match k {
        DatasetKind::Root => 0,
        DatasetKind::Derivative => 1,
    }
}

pub open spec fn alias_byte(k: RemoteAliasKind) -> u8 {
    match k {
        RemoteAliasKind::Pull => 0,
        RemoteAliasKind::Push => 1,
    }
}

/// The canonical bytes of an event.
pub open spec fn event_bytes(e: EventModel) -> Seq<u8> {
    match e {
        EventModel::Seed { dataset_id, kind } => seq![0u8] + u64_bytes(dataset_id) + seq![
            kind_byte(kind),
        ],
        EventModel::AddData { offset_start, offset_end } => seq![1u8] + u64_bytes(offset_start)
            + u64_bytes(offset_end),
        EventModel::SetWatermark { watermark } => seq![2u8] + u64_bytes(watermark as u64),
        EventModel::SetVocabulary { system_time_column, event_time_column } => seq![3u8]
            + opt_str_bytes(system_time_column) + opt_str_bytes(event_time_column),
        EventModel::SetAttachments { path, content } => seq![4u8] + str_bytes(path) + str_bytes(
            content,
        ),
        EventModel::SetInfo { description } => seq![5u8] + str_bytes(description),
        EventModel::SetLicense { short_name } => seq![6u8] + str_bytes(short_name),
        EventModel::SetTransform { inputs, engine, query } => seq![7u8] + u64_bytes(
            inputs.len() as u64,
        ) + words_bytes(inputs) + str_bytes(engine) + str_bytes(query),
        EventModel::ExecuteTransform { offset_start, offset_end } => seq![8u8] + u64_bytes(
            offset_start,
        ) + u64_bytes(offset_end),
        EventModel::SetRemoteAlias { url, kind } => seq![9u8] + str_bytes(url) + seq![
            alias_byte(kind),
        ],
    }
}

/// The canonical content of a block: everything but its own hash.
pub open spec fn content_bytes(prev: Option<BlockHash>, system_time: i64, e: EventModel) -> Seq<
    u8,
> {
    let p = match prev {
        Some(h) => seq![1u8] + hash_bytes(h),
        None => seq![0u8],
    };
    p + u64_bytes(system_time as u64) + event_bytes(e)
}

/// The hash that a block with this content carries.
pub open spec fn block_hash_spec(prev: Option<BlockHash>, system_time: i64, e: EventModel) -> BlockHash {
    hash_of_bytes(content_bytes(prev, system_time, e))
}

/// Whether a block carries the hash of its own content.
pub open spec fn hash_matches(b: BlockModel) -> bool {
    b.hash == block_hash_spec(b.prev, b.system_time, b.event)
}

fn push_u64(v: &mut Vec<u8>, x: u64)
    ensures
        final(v)@ == old(v)@ + u64_bytes(x),
{
    v.push((x / 0x100000000000000 % 256) as u8);
    v.push((x / 0x1000000000000 % 256) as u8);
    v.push((x / 0x10000000000 % 256) as u8);
    v.push((x / 0x100000000 % 256) as u8);
    v.push((x / 0x1000000 % 256) as u8);
    v.push((x / 0x10000 % 256) as u8);
    v.push((x / 0x100 % 256) as u8);
    v.push((x % 256) as u8);
    assert(final(v)@ =~= old(v)@ + u64_bytes(x));
}

fn push_str(v: &mut Vec<u8>, s: &String)
    ensures
        final(v)@ == old(v)@ + str_bytes(s@),
{
    let b = s.as_str().as_bytes();
    push_u64(v, b.len() as u64);
    let ghost start = v@;
    let mut i: usize = 0;
    while i < b.len()
        invariant
            i <= b@.len(),
            b@ == encode_utf8(s@),
            v@ == start + b@.subrange(0, i as int),
        decreases b@.len() - i,
    {
        v.push(b[i]);
        i = i + 1;
        assert(v@ =~= start + b@.subrange(0, i as int));
    }
    assert(b@.subrange(0, i as int) =~= b@);
}

fn push_opt_str(v: &mut Vec<u8>, o: &Option<String>)
    ensures
        final(v)@ == old(v)@ + opt_str_bytes(opt_str_view(*o)),
{
    match o {
        Some(s) => {
            v.push(1u8);
            push_str(v, s);
            assert(final(v)@ =~= old(v)@ + opt_str_bytes(opt_str_view(*o)));
        },
        None => {
            v.push(0u8);
            assert(final(v)@ =~= old(v)@ + opt_str_bytes(opt_str_view(*o)));
        },
    }
}

fn push_words(v: &mut Vec<u8>, ws: &Vec<u64>)
    ensures
        final(v)@ == old(v)@ + words_bytes(ws@),
{
    let ghost start = v@;
    let mut i: usize = 0;
    while i < ws.len()
        invariant
            i <= ws@.len(),
            v@ == start + words_bytes(ws@.subrange(0, i as int)),
        decreases ws@.len() - i,
    {
        push_u64(v, ws[i]);
        i = i + 1;
        assert(ws@.subrange(0, i as int).drop_last() =~= ws@.subrange(0, i - 1));
        assert(v@ =~= start + words_bytes(ws@.subrange(0, i as int)));
    }
    assert(ws@.subrange(0, i as int) =~= ws@);
}

fn push_hash(v: &mut Vec<u8>, h: BlockHash)
    ensures
        final(v)@ == old(v)@ + hash_bytes(h),
{
    push_u64(v, h.w0);
    push_u64(v, h.w1);
    push_u64(v, h.w2);
    push_u64(v, h.w3);
    assert(final(v)@ =~= old(v)@ + hash_bytes(h));
}

fn kind_to_byte(k: DatasetKind) -> (r: u8)
    ensures
        r == kind_byte(k),
{
    match k {
        DatasetKind::Root => 0,
        DatasetKind::Derivative => 1,
    }
}

fn alias_to_byte(k: RemoteAliasKind) -> (r: u8)
    ensures
        r == alias_byte(k),
{
    match k {
        RemoteAliasKind::Pull => 0,
        RemoteAliasKind::Push => 1,
    }
}

/// Appends the canonical bytes of an event.
pub fn push_event(v: &mut Vec<u8>, e: &MetadataEvent)
    ensures
        final(v)@ == old(v)@ + event_bytes(e@),
{
    match e {
        MetadataEvent::Seed { dataset_id, kind } => {
            v.push(0u8);
            push_u64(v, *dataset_id);
            v.push(kind_to_byte(*kind));
        },
        MetadataEvent::AddData { offset_start, offset_end } => {
            v.push(1u8);
            push_u64(v, *offset_start);
            push_u64(v, *offset_end);
        },
        MetadataEvent::SetWatermark { watermark } => {
            v.push(2u8);
            push_u64(v, *watermark as u64);
        },
        MetadataEvent::SetVocabulary { vocab } => {
            v.push(3u8);
            push_opt_str(v, &vocab.system_time_column);
            push_opt_str(v, &vocab.event_time_column);
        },
        MetadataEvent::SetAttachments { path, content } => {
            v.push(4u8);
            push_str(v, path);
            push_str(v, content);
        },
        MetadataEvent::SetInfo { description } => {
            v.push(5u8);
            push_str(v, description);
        },
        MetadataEvent::SetLicense { short_name } => {
            v.push(6u8);
            push_str(v, short_name);
        },
        MetadataEvent::SetTransform { inputs, engine, query } => {
            v.push(7u8);
            push_u64(v, inputs.len() as u64);
            push_words(v, inputs);
            push_str(v, engine);
            push_str(v, query);
        },
        MetadataEvent::ExecuteTransform { offset_start, offset_end } => {
            v.push(8u8);
            push_u64(v, *offset_start);
            push_u64(v, *offset_end);
        },
        MetadataEvent::SetRemoteAlias { url, kind } => {
            v.push(9u8);
            push_str(v, url);
            v.push(alias_to_byte(*kind));
        },
    }
    assert(final(v)@ =~= old(v)@ + event_bytes(e@));
}

/// The canonical content bytes of a block.
pub fn encode_content(prev: Option<BlockHash>, system_time: i64, e: &MetadataEvent) -> (r: Vec<u8>)
    ensures
        r@ == content_bytes(prev, system_time, e@),
{
    let mut v: Vec<u8> = Vec::new();
    match prev {
        Some(h) => {
            v.push(1u8);
            push_hash(&mut v, h);
        },
        None => {
            v.push(0u8);
        },
    }
    push_u64(&mut v, system_time as u64);
    push_event(&mut v, e);
    assert(v@ =~= content_bytes(prev, system_time, e@));
    v
}

/// The hash of a block's content: a digest of its canonical bytes.
pub fn compute_hash(prev: Option<BlockHash>, system_time: i64, e: &MetadataEvent) -> (r: BlockHash)
    ensures
        r == block_hash_spec(prev, system_time, e@),
{
    let bytes = encode_content(prev, system_time, e);
    BlockHash::of_bytes(&bytes)
}

impl MetadataBlock {
    /// A block with the given content and the hash of that content.
    pub fn new(prev_block_hash: Option<BlockHash>, system_time: i64, event: MetadataEvent) -> (r: MetadataBlock)
        ensures
            r@.prev == prev_block_hash,
            r@.system_time == system_time,
            r@.event == event@,
            r@.hash == block_hash_spec(prev_block_hash, system_time, event@),
    {
        let hash = compute_hash(prev_block_hash, system_time, &event);
        MetadataBlock { hash, prev_block_hash, system_time, event }
    }

    /// Whether the block carries the hash of its own content.
    pub fn verify_hash(&self) -> (r: bool)
        ensures
            r == hash_matches(self@),
    {
        let h = compute_hash(self.prev_block_hash, self.system_time, &self.event);
        h == self.hash
    }
}

} // verus!
