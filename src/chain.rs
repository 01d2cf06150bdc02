//! Integrity of a set of blocks: hashes, predecessor links and the seed.

use crate::encoding::{block_hash_spec, hash_matches};
use crate::hash::BlockHash;
use crate::metadata::{BlockModel, EventModel, MetadataBlock, MetadataEvent, blocks_view};
use vstd::prelude::*;

verus! {

/// An integrity violation in a set of blocks.
#[derive(Clone, Copy, Debug, PartialEq, Eq, Structural)]
pub enum ChainError {
    /// A block's predecessor is not among the blocks.
    BrokenLink { hash: BlockHash },
    /// More than one block has no predecessor.
    MultipleSeeds,
    /// No block is without a predecessor.
    MissingSeed,
    /// A block's hash does not match its content.
    CorruptBlock { hash: BlockHash },
}

/// Every block carries the hash of its own content.
pub open spec fn all_hashes_match(s: Seq<BlockModel>) -> bool {
    forall|i: int| 0 <= i < s.len() ==> #[trigger] hash_matches(s[i])
}

/// Some block has this hash.
pub open spec fn has_hash(s: Seq<BlockModel>, h: BlockHash) -> bool {
    exists|j: int| 0 <= j < s.len() && (#[trigger] s[j]).hash == h
}

/// Every predecessor reference resolves to a block of the set.
pub open spec fn links_resolve(s: Seq<BlockModel>) -> bool {
    forall|i: int|
        0 <= i < s.len() && (#[trigger] s[i]).prev is Some ==> has_hash(s, s[i].prev.unwrap())
}

/// How many blocks have no predecessor.
pub open spec fn seed_count(s: Seq<BlockModel>) -> nat
    decreases s.len(),
{
    if s.len() == 0 {
        0
    } else {
        seed_count(s.drop_last()) + if s.last().prev is None {
            1nat
        } else {
            0nat
        }
    }
}

/// The outcome that `validate_chain` gives for a set of blocks.
pub open spec fn chain_check(s: Seq<BlockModel>) -> bool {
    all_hashes_match(s) && links_resolve(s) && seed_count(s) == 1
}

/// The error that `validate_chain` reports, when it reports one, is the
/// first of these that applies, and names a block it applies to: a corrupt
/// block, a missing predecessor, no seed, more than one seed.
pub open spec fn validation_error_matches(s: Seq<BlockModel>, r: Result<(), ChainError>) -> bool {
    match r {
        Ok(()) => true,
        Err(ChainError::CorruptBlock { hash }) => exists|i: int|
            0 <= i < s.len() && !hash_matches(#[trigger] s[i]) && s[i].hash == hash,
        Err(ChainError::BrokenLink { hash }) => all_hashes_match(s) && exists|i: int|
            0 <= i < s.len() && (#[trigger] s[i]).prev == Some(hash) && !has_hash(s, hash),
        Err(ChainError::MissingSeed) => all_hashes_match(s) && links_resolve(s) && seed_count(s)
            == 0,
        Err(ChainError::MultipleSeeds) => all_hashes_match(s) && links_resolve(s) && seed_count(
            s,
        ) > 1,
    }
}

fn find_hash(blocks: &Vec<MetadataBlock>, h: BlockHash) -> (r: bool)
    ensures
        r == has_hash(blocks_view(blocks@), h),
{
    let ghost s = blocks_view(blocks@);
    let mut j: usize = 0;
    while j < blocks.len()
        invariant
            j <= blocks@.len(),
            s == blocks_view(blocks@),
            forall|k: int| 0 <= k < j ==> s[k].hash != h,
        decreases blocks@.len() - j,
    {
        if blocks[j].hash == h {
            assert(s[j as int].hash == h);
            return true;
        }
        j = j + 1;
    }
    false
}

/// Checks that every block carries its own hash, that every predecessor
/// reference resolves to a block of the set, and that exactly one block has
/// no predecessor.
pub fn validate_chain(blocks: &Vec<MetadataBlock>) -> (r: Result<(), ChainError>)
    ensures
        r is Ok <==> chain_check(blocks_view(blocks@)),
        all_hashes_match(blocks_view(blocks@)) ==> (r is Ok <==> links_resolve(
            blocks_view(blocks@),
        ) && seed_count(blocks_view(blocks@)) == 1),
        validation_error_matches(blocks_view(blocks@), r),
{
    let ghost s = blocks_view(blocks@);
    let mut i: usize = 0;
    while i < blocks.len()
        invariant
            i <= blocks@.len(),
            s == blocks_view(blocks@),
            forall|k: int| 0 <= k < i ==> #[trigger] hash_matches(s[k]),
        decreases blocks@.len() - i,
    {
        if !blocks[i].verify_hash() {
            assert(!hash_matches(s[i as int]));
            return Err(ChainError::CorruptBlock { hash: blocks[i].hash });
        }
        i = i + 1;
    }
    let mut i: usize = 0;
    while i < blocks.len()
        invariant
            i <= blocks@.len(),
            s == blocks_view(blocks@),
            all_hashes_match(s),
            forall|k: int|
                0 <= k < i && (#[trigger] s[k]).prev is Some ==> has_hash(s, s[k].prev.unwrap()),
        decreases blocks@.len() - i,
    {
        match blocks[i].prev_block_hash {
            Some(h) => {
                if !find_hash(blocks, h) {
                    assert(s[i as int].prev == Some(h));
                    return Err(ChainError::BrokenLink { hash: h });
                }
            },
            None => {},
        }
        i = i + 1;
    }
    let mut count: usize = 0;
    let mut i: usize = 0;
    while i < blocks.len()
        invariant
            i <= blocks@.len(),
            s == blocks_view(blocks@),
            count == seed_count(s.subrange(0, i as int)),
            count <= i,
        decreases blocks@.len() - i,
    {
        assert(s.subrange(0, i + 1).drop_last() =~= s.subrange(0, i as int));
        if blocks[i].prev_block_hash.is_none() {
            count = count + 1;
        }
        i = i + 1;
    }
    assert(s.subrange(0, i as int) =~= s);
    if count == 0 {
        Err(ChainError::MissingSeed)
    } else if count > 1 {
        Err(ChainError::MultipleSeeds)
    } else {
        Ok(())
    }
}

} // verus!

verus! {

/// A well-formed chain in seed-first order: the first block is a `Seed`
/// without predecessor, each later block links to the one before it and is
/// not a `Seed`, and every block carries the hash of its content.
pub open spec fn is_chain(s: Seq<BlockModel>) -> bool {
    &&& s.len() > 0
    &&& s[0].prev is None
    &&& s[0].event is Seed
    &&& all_hashes_match(s)
    &&& forall|i: int|
        0 < i < s.len() ==> (#[trigger] s[i]).prev == Some(s[i - 1].hash) && !(s[i].event is Seed)
}

/// `new` can be appended to a chain whose head is `expected` (or can start a
/// chain, when `expected` is `None`).
pub open spec fn extension_ok(expected: Option<BlockHash>, new: Seq<BlockModel>) -> bool {
    &&& new.len() > 0
    &&& all_hashes_match(new)
    &&& new[0].prev == expected
    &&& (new[0].event is Seed <==> expected is None)
    &&& forall|i: int|
        0 < i < new.len() ==> (#[trigger] new[i]).prev == Some(new[i - 1].hash) && !(
        new[i].event is Seed)
}

/// Appending a valid extension onto a chain's head gives a chain.
pub proof fn lemma_extend_chain(old: Seq<BlockModel>, new: Seq<BlockModel>)
    requires
        old.len() == 0 || is_chain(old),
        extension_ok(if old.len() == 0 { None } else { Some(old.last().hash) }, new),
    ensures
        is_chain(old + new),
{
    let s = old + new;
    assert forall|i: int| 0 <= i < s.len() implies #[trigger] hash_matches(s[i]) by {
        if i < old.len() {
            assert(s[i] == old[i]);
        } else {
            assert(s[i] == new[i - old.len()]);
        }
    }
    assert forall|i: int| 0 < i < s.len() implies (#[trigger] s[i]).prev == Some(s[i - 1].hash)
        && !(s[i].event is Seed) by {
        if i < old.len() {
            assert(s[i] == old[i]);
            assert(s[i - 1] == old[i - 1]);
        } else if i == old.len() {
            assert(s[i] == new[0]);
            assert(s[i - 1] == old.last());
        } else {
            assert(s[i] == new[i - old.len()]);
            assert(s[i - 1] == new[i - 1 - old.len()]);
        }
    }
}

/// Checks that `new` can be appended onto a chain whose head is `expected`.
pub fn check_extension(expected: Option<BlockHash>, new: &Vec<MetadataBlock>) -> (r: Result<
    (),
    ChainError,
>)
    requires
        new@.len() > 0,
    ensures
        r is Ok <==> extension_ok(expected, blocks_view(new@)),
{
    let ghost s = blocks_view(new@);
    if new[0].prev_block_hash != expected {
        return match new[0].prev_block_hash {
            Some(h) => Err(ChainError::BrokenLink { hash: h }),
            None => Err(ChainError::MultipleSeeds),
        };
    }
    let first_is_seed = new[0].event.is_seed();
    if first_is_seed && expected.is_some() {
        return Err(ChainError::MultipleSeeds);
    }
    if !first_is_seed && expected.is_none() {
        return Err(ChainError::MissingSeed);
    }
    let mut i: usize = 0;
    while i < new.len()
        invariant
            i <= new@.len(),
            s == blocks_view(new@),
            s.len() > 0,
            s[0].prev == expected,
            s[0].event is Seed <==> expected is None,
            forall|k: int| 0 <= k < i ==> #[trigger] hash_matches(s[k]),
            forall|k: int|
                0 < k < i ==> (#[trigger] s[k]).prev == Some(s[k - 1].hash) && !(s[k].event is Seed),
        decreases new@.len() - i,
    {
        let b = &new[i];
        assert(s[i as int] == b@);
        if !b.verify_hash() {
            return Err(ChainError::CorruptBlock { hash: b.hash });
        }
        if i > 0 {
            let p = &new[i - 1];
            assert(s[i - 1] == p@);
            if b.prev_block_hash != Some(p.hash) {
                return Err(ChainError::BrokenLink { hash: p.hash });
            }
            if b.event.is_seed() {
                return Err(ChainError::MultipleSeeds);
            }
        }
        i = i + 1;
    }
    Ok(())
}

/// Two well-formed chains whose blocks carry the same events at the same
/// times, position by position, carry the same hashes: a block's hash is
/// determined by the history before it.
pub proof fn lemma_identical_events_identical_hashes(a: Seq<BlockModel>, b: Seq<BlockModel>)
    requires
        is_chain(a),
        is_chain(b),
        a.len() == b.len(),
        forall|i: int| 0 <= i < a.len() ==> (#[trigger] a[i]).event == b[i].event && a[i].system_time == b[i].system_time,
    ensures
        forall|i: int| 0 <= i < a.len() ==> (#[trigger] a[i]).hash == b[i].hash,
        a == b,
{
    lemma_hashes_agree_upto(a, b, a.len() as int);
    assert(a =~= b);
}

proof fn lemma_hashes_agree_upto(a: Seq<BlockModel>, b: Seq<BlockModel>, n: int)
    requires
        is_chain(a),
        is_chain(b),
        a.len() == b.len(),
        0 <= n <= a.len(),
        forall|i: int| 0 <= i < a.len() ==> (#[trigger] a[i]).event == b[i].event && a[i].system_time == b[i].system_time,
    ensures
        forall|i: int| 0 <= i < n ==> (#[trigger] a[i]) == b[i],
    decreases n,
{
    if n > 0 {
        lemma_hashes_agree_upto(a, b, n - 1);
        let i = n - 1;
        assert(hash_matches(a[i]) && hash_matches(b[i]));
        if i == 0 {
            assert(a[0].prev is None && b[0].prev is None);
        } else {
            assert(a[i].prev == Some(a[i - 1].hash));
            assert(b[i].prev == Some(b[i - 1].hash));
            assert(a[i - 1] == b[i - 1]);
        }
        assert(a[i] == b[i]);
    }
}

proof fn lemma_seed_count_one(s: Seq<BlockModel>)
    requires
        s.len() > 0,
        s[0].prev is None,
        forall|i: int| 0 < i < s.len() ==> (#[trigger] s[i]).prev is Some,
    ensures
        seed_count(s) == 1,
    decreases s.len(),
{
    if s.len() > 1 {
        let t = s.drop_last();
        assert forall|i: int| 0 < i < t.len() implies (#[trigger] t[i]).prev is Some by {
            assert(t[i] == s[i]);
        }
        lemma_seed_count_one(t);
        assert(s.last() == s[s.len() - 1]);
        assert(s[s.len() - 1].prev is Some);
    } else {
        assert(s.drop_last().len() == 0);
        assert(seed_count(s.drop_last()) == 0);
        assert(s.last() == s[0]);
    }
}

/// A well-formed chain passes `validate_chain`: its links resolve and its
/// seed is its only block without a predecessor.
pub proof fn lemma_chain_validates(s: Seq<BlockModel>)
    requires
        is_chain(s),
    ensures
        chain_check(s),
{
    assert forall|i: int| 0 <= i < s.len() && (#[trigger] s[i]).prev is Some implies has_hash(s, s[i].prev.unwrap()) by {
        assert(i > 0);
        assert(s[i - 1].hash == s[i].prev.unwrap());
    }
    lemma_seed_count_one(s);
}

/// Block `i` of `r` carries the timed event `ev[i]`, its own hash, and a
/// link to the block before it (none for the first).
pub open spec fn built_at(r: Seq<MetadataBlock>, ev: Seq<(i64, MetadataEvent)>, i: int) -> bool {
    &&& r[i]@.event == ev[i].1@
    &&& r[i]@.system_time == ev[i].0
    &&& hash_matches(r[i]@)
    &&& r[i]@.prev == (if i == 0 { None } else { Some(r[i - 1]@.hash) })
}

/// The chain that the timed events make, seed first: each block links to
/// the one before it and carries the hash of its content.
pub fn build_chain(events: Vec<(i64, MetadataEvent)>) -> (r: Vec<MetadataBlock>)
    ensures
        r@.len() == events@.len(),
        forall|i: int| 0 <= i < r@.len() ==> built_at(r@, events@, i),
        events@.len() > 0 && events@[0].1@ is Seed && (forall|i: int|
            0 < i < events@.len() ==> !((#[trigger] events@[i]).1@ is Seed)) ==> is_chain(blocks_view(r@)),
{
    let ghost ev = events@;
    let mut events = events;
    let mut r: Vec<MetadataBlock> = Vec::new();
    let mut prev: Option<crate::hash::BlockHash> = None;
    while events.len() > 0
        invariant
            r@.len() + events@.len() == ev.len(),
            forall|k: int| 0 <= k < events@.len() ==> #[trigger] events@[k] == ev[r@.len() + k],
            prev == (if r@.len() == 0 { None } else { Some(r@[r@.len() - 1]@.hash) }),
            forall|i: int| 0 <= i < r@.len() ==> built_at(r@, ev, i),
        decreases events@.len(),
    {
        let ghost old_r = r@;
        let ghost old_events = events@;
        assert(events@[0] == ev[r@.len() as int]);
        let (t, e) = events.remove(0);
        let b = MetadataBlock::new(prev, t, e);
        prev = Some(b.hash);
        r.push(b);
        proof {
            assert forall|k: int| 0 <= k < events@.len() implies #[trigger] events@[k] == ev[r@.len() + k] by {
                assert(events@[k] == old_events[k + 1]);
            }
            assert forall|i: int| 0 <= i < r@.len() implies built_at(r@, ev, i) by {
                if i < old_r.len() {
                    assert(r@[i] == old_r[i]);
                    if i > 0 {
                        assert(r@[i - 1] == old_r[i - 1]);
                    }
                    assert(built_at(old_r, ev, i));
                } else {
                    assert(r@[i] == b);
                    if i > 0 {
                        assert(r@[i - 1] == old_r[i - 1]);
                    }
                }
            }
        }
    }
    proof {
        let s = blocks_view(r@);
        if ev.len() > 0 && ev[0].1@ is Seed && (forall|i: int| 0 < i < ev.len() ==> !((#[trigger] ev[i]).1@ is Seed)) {
            assert forall|i: int| 0 <= i < s.len() implies #[trigger] hash_matches(s[i]) by {
                assert(s[i] == r@[i]@);
                assert(built_at(r@, ev, i));
            }
            assert forall|i: int| 0 < i < s.len() implies (#[trigger] s[i]).prev == Some(s[i - 1].hash) && !(
            s[i].event is Seed) by {
                assert(s[i] == r@[i]@);
                assert(s[i - 1] == r@[i - 1]@);
                assert(built_at(r@, ev, i));
                assert(!(ev[i].1@ is Seed));
            }
            assert(s[0] == r@[0]@);
            assert(built_at(r@, ev, 0));
        }
    }
    r
}

} // verus!
