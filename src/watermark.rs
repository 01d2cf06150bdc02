//! Setting a root dataset's watermark, and the command-level checks that
//! come before it.

use crate::chain::extension_ok;
use crate::chain_store::{ChainStore, append_outcome, head_of};
use crate::encoding::{block_hash_spec, hash_matches};
use crate::hash::BlockHash;
use crate::metadata::{BlockModel, DatasetId, DatasetKind, EventModel, MetadataBlock, MetadataEvent, blocks_view};
use crate::pull::PullResult;
use crate::summary::{
    chain_kind, chain_watermark, current_watermark, dataset_kind, has_pull_alias, lemma_pull_alias_urls,
    pull_alias_urls, pull_aliases, pulls_from_remote,
};
use vstd::prelude::*;
use vstd::string::StringExecFns;

verus! {

/// The instant, in milliseconds since the Unix epoch, that an RFC 3339
/// timestamp denotes, as chrono reads it; `None` when it is not one.
pub uninterp spec fn rfc3339_millis(s: Seq<char>) -> Option<i64>;

/// Relies on `chrono::DateTime::parse_from_rfc3339`, whose result is
/// converted with `DateTime::timestamp_millis`: the instant the text
/// denotes, or `None` when it is not an RFC 3339 date and time.
#[verifier::external_body]
fn parse_rfc3339_millis(s: &str) -> (r: Option<i64>)
    ensures
        r == rfc3339_millis(s@),
{
    chrono::DateTime::parse_from_rfc3339(s).ok().map(|d| d.timestamp_millis())
}

/// Why a watermark could not be set.
#[derive(Clone, Copy, Debug, PartialEq, Eq, Structural)]
pub enum SetWatermarkError {
    /// The dataset is not in the store.
    NotFound,
    /// Derivative datasets take their watermarks from their inputs.
    IsDerivative,
    /// The dataset pulls from a remote: a local block would diverge from it.
    IsRemote,
}

/// The block that sets `watermark` on top of `head`.
pub open spec fn watermark_block(head: BlockHash, system_time: i64, watermark: i64) -> BlockModel {
    let e = EventModel::SetWatermark { watermark };
    BlockModel { hash: block_hash_spec(Some(head), system_time, e), prev: Some(head), system_time, event: e }
}

/// The result of setting a watermark, and the store model afterwards.
pub open spec fn set_watermark_spec(
    m: Map<DatasetId, Seq<BlockModel>>,
    id: DatasetId,
    watermark: i64,
    system_time: i64,
) -> (Result<PullResult, SetWatermarkError>, Map<DatasetId, Seq<BlockModel>>) {
    if !m.contains_key(id) {
        (Err(SetWatermarkError::NotFound), m)
    } else if chain_kind(m[id]) == DatasetKind::Derivative {
        (Err(SetWatermarkError::IsDerivative), m)
    } else if has_pull_alias(m[id]) {
        (Err(SetWatermarkError::IsRemote), m)
    } else if chain_watermark(m[id]) == Some(watermark) {
        (Ok(PullResult::UpToDate), m)
    } else {
        let b = watermark_block(m[id].last().hash, system_time, watermark);
        (Ok(PullResult::Updated { new_head: b.hash }), m.insert(id, m[id].push(b)))
    }
}

/// Sets the watermark of a root dataset by appending a `SetWatermark` block,
/// unless it already has that watermark. Refused, with nothing appended, for
/// an unknown or derivative dataset and for one that pulls from a remote.
pub fn set_watermark(store: &mut ChainStore, id: DatasetId, watermark: i64, system_time: i64) -> (r: Result<
    PullResult,
    SetWatermarkError,
>)
    requires
        old(store).wf(),
    ensures
        final(store).wf(),
        r == set_watermark_spec(old(store)@, id, watermark, system_time).0,
        final(store)@ == set_watermark_spec(old(store)@, id, watermark, system_time).1,
        old(store)@.contains_key(id) && has_pull_alias(old(store)@[id]) ==> r is Err && final(store)@
            == old(store)@,
{
    proof {
        store.lemma_chains_valid();
    }
    let (head, wm) = match store.chain(id) {
        None => {
            return Err(SetWatermarkError::NotFound);
        },
        Some(blocks) => {
            if dataset_kind(blocks) == DatasetKind::Derivative {
                return Err(SetWatermarkError::IsDerivative);
            }
            if pulls_from_remote(blocks) {
                return Err(SetWatermarkError::IsRemote);
            }
            let n = blocks.len();
            assert(blocks_view(blocks@).last() == blocks@[n - 1]@);
            (blocks[n - 1].hash, current_watermark(blocks))
        },
    };
    if wm == Some(watermark) {
        return Ok(PullResult::UpToDate);
    }
    let b = MetadataBlock::new(Some(head), system_time, MetadataEvent::SetWatermark { watermark });
    let mut blocks: Vec<MetadataBlock> = Vec::new();
    blocks.push(b);
    let ghost bm = watermark_block(head, system_time, watermark);
    proof {
        assert(blocks_view(blocks@) =~= seq![bm]);
        assert(hash_matches(bm));
        assert(extension_ok(Some(head), seq![bm]));
        assert(head_of(store@, id) == Some(head));
    }
    match store.append_blocks(id, Some(head), blocks) {
        Ok(h) => {
            proof {
                assert(seq![bm].last() == bm);
                assert(store@[id] =~= old(store)@[id].push(bm)) by {
                    assert(old(store)@[id] + seq![bm] =~= old(store)@[id].push(bm));
                }
            }
            Ok(PullResult::Updated { new_head: h })
        },
        Err(_) => {
            assert(false);
            Err(SetWatermarkError::NotFound)
        },
    }
}

/// A command-line failure.
#[derive(Clone, Debug)]
pub enum CLIError {
    /// The request was malformed; nothing was changed.
    UsageError { message: String },
    /// The operation was refused.
    Failure { error: SetWatermarkError },
}

/// The strings joined, with `sep` between each two.
pub open spec fn join_with(s: Seq<Seq<char>>, sep: Seq<char>) -> Seq<char>
    decreases s.len(),
{
    if s.len() == 0 {
        Seq::empty()
    } else if s.len() == 1 {
        s[0]
    } else {
        join_with(s.drop_last(), sep) + sep + s.last()
    }
}

/// Joins the strings with `sep` between each two.
pub fn join_strings(v: &Vec<String>, sep: &str) -> (r: String)
    ensures
        r@ == join_with(v@.map_values(|u: String| u@), sep@),
{
    let ghost w = v@.map_values(|u: String| u@);
    if v.len() == 0 {
        return String::new();
    }
    let mut r = v[0].clone();
    assert(w.subrange(0, 1).drop_last().len() == 0);
    assert(join_with(w.subrange(0, 1), sep@) == w[0]);
    let mut i: usize = 1;
    while i < v.len()
        invariant
            1 <= i <= v@.len(),
            w == v@.map_values(|u: String| u@),
            r@ == join_with(w.subrange(0, i as int), sep@),
        decreases v@.len() - i,
    {
        r.append(sep);
        r.append(v[i].as_str());
        assert(w.subrange(0, i + 1).drop_last() =~= w.subrange(0, i as int));
        i = i + 1;
    }
    assert(w.subrange(0, i as int) =~= w);
    r
}

/// The usage error that the command reports before it changes anything,
/// if any: more or fewer than one dataset, `--all` or `--recursive`, a
/// timestamp that is not RFC 3339, or a dataset that pulls from a remote
/// (its pull aliases listed).
pub open spec fn usage_error(
    refs: Seq<DatasetId>,
    all: bool,
    recursive: bool,
    watermark: Seq<char>,
    m: Map<DatasetId, Seq<BlockModel>>,
) -> Option<Seq<char>> {
    if refs.len() != 1 {
        Some("Only one dataset can be provided when setting a watermark"@)
    } else if recursive || all {
        Some("Can't use --all or --recursive flags when setting a watermark"@)
    } else if rfc3339_millis(watermark) is None {
        Some("Invalid timestamp "@ + watermark + " should follow RFC3339 format, e.g. 2020-01-01T12:00:00Z"@)
    } else if m.contains_key(refs[0]) && has_pull_alias(m[refs[0]]) {
        Some(
            "Setting watermark on a remote dataset will cause histories to diverge. Existing pull aliases:\n"@
                + join_with(pull_alias_urls(m[refs[0]]), "\n- "@),
        )
    } else {
        None
    }
}

/// Sets the watermark of one local dataset from an RFC 3339 timestamp.
pub struct SetWatermarkCommand {
    pub refs: Vec<DatasetId>,
    pub all: bool,
    pub recursive: bool,
    pub watermark: String,
}

impl SetWatermarkCommand {
    pub fn new(refs: Vec<DatasetId>, all: bool, recursive: bool, watermark: &str) -> (r: SetWatermarkCommand)
        ensures
            r.refs@ == refs@,
            r.all == all,
            r.recursive == recursive,
            r.watermark@ == watermark@,
    {
        SetWatermarkCommand { refs, all, recursive, watermark: watermark.to_owned() }
    }

    /// Checks the request, then sets the watermark with the store's clock at
    /// `system_time`. A malformed request, or one on a dataset that pulls
    /// from a remote, is a usage error and leaves the store as it was.
    pub fn run(&self, store: &mut ChainStore, system_time: i64) -> (r: Result<PullResult, CLIError>)
        requires
            old(store).wf(),
        ensures
            final(store).wf(),
            usage_error(self.refs@, self.all, self.recursive, self.watermark@, old(store)@) matches Some(msg)
                ==> (r matches Err(CLIError::UsageError { message }) && message@ == msg) && final(store)@
                == old(store)@,
            usage_error(self.refs@, self.all, self.recursive, self.watermark@, old(store)@) is None ==> {
                let (res, after) = set_watermark_spec(
                    old(store)@,
                    self.refs@[0],
                    rfc3339_millis(self.watermark@).unwrap(),
                    system_time,
                );
                &&& final(store)@ == after
                &&& (res matches Ok(p) ==> r == Ok::<PullResult, CLIError>(p))
                &&& (res matches Err(e) ==> r == Err::<PullResult, CLIError>(CLIError::Failure { error: e }))
            },
    {
        if self.refs.len() != 1 {
            return Err(CLIError::UsageError {
                message: "Only one dataset can be provided when setting a watermark".to_owned(),
            });
        }
        if self.recursive || self.all {
            return Err(CLIError::UsageError {
                message: "Can't use --all or --recursive flags when setting a watermark".to_owned(),
            });
        }
        let watermark = match parse_rfc3339_millis(self.watermark.as_str()) {
            Some(w) => w,
            None => {
                let mut message = "Invalid timestamp ".to_owned();
                message.append(self.watermark.as_str());
                message.append(" should follow RFC3339 format, e.g. 2020-01-01T12:00:00Z");
                return Err(CLIError::UsageError { message });
            },
        };
        let id = self.refs[0];
        let aliases = match store.chain(id) {
            Some(blocks) => {
                proof {
                    lemma_pull_alias_urls(blocks_view(blocks@));
                }
                pull_aliases(blocks)
            },
            None => Vec::new(),
        };
        if aliases.len() > 0 {
            let mut message =
                "Setting watermark on a remote dataset will cause histories to diverge. Existing pull aliases:\n".to_owned();
            let list = join_strings(&aliases, "\n- ");
            message.append(list.as_str());
            return Err(CLIError::UsageError { message });
        }
        proof {
            if store@.contains_key(id) {
                assert(!has_pull_alias(store@[id]));
            }
        }
        match set_watermark(store, id, watermark, system_time) {
            Ok(p) => Ok(p),
            Err(e) => Err(CLIError::Failure { error: e }),
        }
    }
}

} // verus!
