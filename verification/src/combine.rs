//! Pairing of the aggregator's two drained queues into one combined message.
//! Storage changes and blocks are walked in lockstep; when one queue is
//! longer, its tail follows alone. Splitting the pairs back out loses nothing
//! and keeps each queue's order.

use vstd::prelude::*;
use itertools::EitherOrBoth;
use itertools::Itertools;
use crate::types::BatchBlock;
use crate::types::Block;
use crate::types::StorageChange;

verus! {

/// One item of the paired drain: a storage change, a block, or one of each.
pub enum Paired {
    StorageOnly(StorageChange),
    BlockOnly(Block),
    Both(StorageChange, Block),
}

/// The pairing of two queues: items at the same position are paired while
/// both queues reach it; the longer queue's tail follows alone.
pub open spec fn paired_seq(s: Seq<StorageChange>, b: Seq<Block>) -> Seq<Paired> {
    Seq::new(
        if s.len() >= b.len() { s.len() } else { b.len() },
        |i: int| if i < s.len() && i < b.len() {
            Paired::Both(s[i], b[i])
        } else if i < s.len() {
            Paired::StorageOnly(s[i])
        } else {
            Paired::BlockOnly(b[i])
        },
    )
}

/// Relies on `itertools::Itertools::zip_longest`: yields `Both(a, b)` while
/// both iterators produce items, then `Left(a)` or `Right(b)` for the longer
/// one's tail, in order. The match below only renames the variants.
#[verifier::external_body]
fn zip_queues(storage: Vec<StorageChange>, blocks: Vec<Block>) -> (r: Vec<Paired>)
    ensures
        r@ == paired_seq(storage@, blocks@),
{
    storage
        .into_iter()
        .zip_longest(blocks.into_iter())
        .map(|e| match e {
            EitherOrBoth::Left(s) => Paired::StorageOnly(s),
            EitherOrBoth::Right(b) => Paired::BlockOnly(b),
            EitherOrBoth::Both(s, b) => Paired::Both(s, b),
        })
        .collect()
}

/// The blocks carried by a run of paired items, in order.
pub open spec fn blocks_of(ps: Seq<Paired>) -> Seq<Block>
    decreases ps.len(),
{
    if ps.len() == 0 {
        Seq::empty()
    } else {
        blocks_of(ps.drop_last()) + match ps.last() {
            Paired::StorageOnly(_) => Seq::empty(),
            Paired::BlockOnly(b) => seq![b],
            Paired::Both(_, b) => seq![b],
        }
    }
}

/// The storage changes carried by a run of paired items, in order.
pub open spec fn storage_of(ps: Seq<Paired>) -> Seq<StorageChange>
    decreases ps.len(),
{
    if ps.len() == 0 {
        Seq::empty()
    } else {
        storage_of(ps.drop_last()) + match ps.last() {
            Paired::StorageOnly(s) => seq![s],
            Paired::BlockOnly(_) => Seq::empty(),
            Paired::Both(s, _) => seq![s],
        }
    }
}

/// A drained tick's content: every block and every storage change that was
/// queued when the tick began.
pub struct Combo {
    pub blocks: BatchBlock,
    pub storage: Vec<StorageChange>,
}

impl Combo {
    /// Splits a run of paired items back into its blocks and its storage
    /// changes, each in their original order.
    pub fn from_paired(pairs: Vec<Paired>) -> (r: Combo)
        ensures
            r.blocks.inner@ == blocks_of(pairs@),
            r.storage@ == storage_of(pairs@),
    {
        let ghost orig = pairs@;
        let mut pairs = pairs;
        let mut blocks: Vec<Block> = Vec::new();
        let mut storage: Vec<StorageChange> = Vec::new();
        while pairs.len() > 0
            invariant
                pairs@.len() <= orig.len(),
                pairs@ == orig.skip(orig.len() - pairs@.len()),
                blocks@ == blocks_of(orig.take(orig.len() - pairs@.len())),
                storage@ == storage_of(orig.take(orig.len() - pairs@.len())),
            decreases pairs@.len(),
        {
            let ghost done = orig.len() - pairs@.len();
            let p = pairs.remove(0);
            proof {
                assert(p == orig[done]);
                assert(pairs@ =~= orig.skip(done + 1));
                assert(orig.take(done + 1).drop_last() =~= orig.take(done));
                assert(orig.take(done + 1).last() == orig[done]);
            }
            match p {
                Paired::StorageOnly(s) => {
                    storage.push(s);
                }
                Paired::BlockOnly(b) => {
                    blocks.push(b);
                }
                Paired::Both(s, b) => {
                    storage.push(s);
                    blocks.push(b);
                }
            }
        }
        proof {
            assert(orig.take(orig.len() - pairs@.len()) =~= orig);
        }
        Combo { blocks: BatchBlock::new(blocks), storage }
    }
}

/// Splitting the pairing of two queues hands back exactly the two queues:
/// nothing drained is lost, duplicated or reordered.
pub proof fn lemma_paired_round_trip(s: Seq<StorageChange>, b: Seq<Block>)
    ensures
        blocks_of(paired_seq(s, b)) == b,
        storage_of(paired_seq(s, b)) == s,
    decreases s.len() + b.len(),
{
    let ps = paired_seq(s, b);
    if s.len() == 0 && b.len() == 0 {
        assert(blocks_of(ps) =~= b);
        assert(storage_of(ps) =~= s);
    } else if s.len() > b.len() {
        lemma_paired_round_trip(s.drop_last(), b);
        assert(ps.drop_last() =~= paired_seq(s.drop_last(), b));
        assert(ps.last() == Paired::StorageOnly(s.last()));
        assert(blocks_of(ps) =~= b);
        assert(storage_of(ps) =~= s);
    } else if b.len() > s.len() {
        lemma_paired_round_trip(s, b.drop_last());
        assert(ps.drop_last() =~= paired_seq(s, b.drop_last()));
        assert(ps.last() == Paired::BlockOnly(b.last()));
        assert(blocks_of(ps) =~= b);
        assert(storage_of(ps) =~= s);
    } else {
        lemma_paired_round_trip(s.drop_last(), b.drop_last());
        assert(ps.drop_last() =~= paired_seq(s.drop_last(), b.drop_last()));
        assert(ps.last() == Paired::Both(s.last(), b.last()));
        assert(blocks_of(ps) =~= b);
        assert(storage_of(ps) =~= s);
    }
}

/// Drains the two queue contents into one combined message, exactly as they
/// stood, and in order.
pub fn combine_drained(storage: Vec<StorageChange>, blocks: Vec<Block>) -> (r: Combo)
    ensures
        r.blocks.inner@ == blocks@,
        r.storage@ == storage@,
{
    let ghost s0 = storage@;
    let ghost b0 = blocks@;
    let pairs = zip_queues(storage, blocks);
    let combo = Combo::from_paired(pairs);
    proof {
        lemma_paired_round_trip(s0, b0);
    }
    combo
}

} // verus!
