//! The deferred-storage worker: storage rows whose referenced block is not
//! yet indexed are held aside. Each round probes the store for the block
//! numbers of `[min, max]` over the working set that are still absent,
//! releases the records whose blocks have appeared to the sink, and keeps
//! the rest for the next round. Released records never reference an absent
//! block, which is what referential integrity of the store rests on.

use vstd::prelude::*;
use crate::db::Database;
use crate::db::DatabaseV;
use crate::db::InsertV;
use crate::db::apply;
use crate::db::apply_storage;
use crate::db::has_block_num;
use crate::db::lemma_apply_storage_integrity;
use crate::db::lemma_has_block_num_same;
use crate::db::lemma_missing_between_contains;
use crate::db::lemma_replay_snoc;
use crate::db::missing_between;
use crate::db::replay;
use crate::db::storage_inserts;
use crate::db::storage_integrity;
use crate::types::StorageChange;

verus! {

/// The records of the run whose block number is not in the missing list, in
/// order: those ready for the sink.
pub open spec fn ready_part(s: Seq<StorageChange>, missing: Seq<u32>) -> Seq<StorageChange>
    decreases s.len(),
{
    if s.len() == 0 {
        Seq::empty()
    } else {
        ready_part(s.drop_last(), missing) + if missing.contains(s.last().block_num) {
            Seq::empty()
        } else {
            seq![s.last()]
        }
    }
}

/// The records of the run whose block number is still missing, in order:
/// those kept for the next round.
pub open spec fn deferred_part(s: Seq<StorageChange>, missing: Seq<u32>) -> Seq<StorageChange>
    decreases s.len(),
{
    if s.len() == 0 {
        Seq::empty()
    } else {
        deferred_part(s.drop_last(), missing) + if missing.contains(s.last().block_num) {
            seq![s.last()]
        } else {
            Seq::empty()
        }
    }
}

/// Every released record comes from the run and its block number is not in
/// the missing list.
pub proof fn lemma_ready_part_props(s: Seq<StorageChange>, missing: Seq<u32>)
    ensures
        forall|i: int| 0 <= i < ready_part(s, missing).len() ==> s.contains(
            #[trigger] ready_part(s, missing)[i],
        ) && !missing.contains(ready_part(s, missing)[i].block_num),
    decreases s.len(),
{
    if s.len() > 0 {
        lemma_ready_part_props(s.drop_last(), missing);
        let r = ready_part(s, missing);
        let pre = ready_part(s.drop_last(), missing);
        assert forall|i: int| 0 <= i < r.len() implies s.contains(#[trigger] r[i])
            && !missing.contains(r[i].block_num) by {
            if i < pre.len() {
                assert(r[i] == pre[i]);
                assert(s.drop_last().contains(pre[i]));
                let k = choose|k: int| 0 <= k < s.drop_last().len() && s.drop_last()[k] == pre[i];
                assert(s[k] == pre[i]);
            } else {
                assert(r[i] == s.last());
                assert(s[s.len() - 1] == s.last());
            }
        }
    }
}

/// Splits the working set by the missing list: ready records first, kept
/// records second, both in their original order.
pub fn partition_ready(working: Vec<StorageChange>, missing: &Vec<u32>) -> (r: (
    Vec<StorageChange>,
    Vec<StorageChange>,
))
    ensures
        r.0@ == ready_part(working@, missing@),
        r.1@ == deferred_part(working@, missing@),
{
    let ghost orig = working@;
    let mut working = working;
    let mut ready: Vec<StorageChange> = Vec::new();
    let mut kept: Vec<StorageChange> = Vec::new();
    while working.len() > 0
        invariant
            working@.len() <= orig.len(),
            working@ == orig.skip(orig.len() - working@.len()),
            ready@ == ready_part(orig.take(orig.len() - working@.len()), missing@),
            kept@ == deferred_part(orig.take(orig.len() - working@.len()), missing@),
        decreases working@.len(),
    {
        let ghost done = orig.len() - working@.len();
        let c = working.remove(0);
        proof {
            assert(c == orig[done]);
            assert(working@ =~= orig.skip(done + 1));
            assert(orig.take(done + 1).drop_last() =~= orig.take(done));
            assert(orig.take(done + 1).last() == orig[done]);
        }
        if contains_u32(missing, c.block_num) {
            kept.push(c);
        } else {
            ready.push(c);
        }
    }
    proof {
        assert(orig.take(orig.len() - working@.len()) =~= orig);
    }
    (ready, kept)
}

/// Whether a number occurs in a list.
fn contains_u32(v: &Vec<u32>, x: u32) -> (r: bool)
    ensures
        r == v@.contains(x),
{
    let n = v.len();
    let mut i: usize = 0;
    while i < n
        invariant
            n == v@.len(),
            i <= n,
            forall|j: int| 0 <= j < i ==> v@[j] != x,
        decreases n - i,
    {
        if v[i] == x {
            return true;
        }
        i += 1;
    }
    false
}

/// The least and greatest block number of a non-empty working set.
pub fn block_num_bounds(working: &Vec<StorageChange>) -> (r: (u32, u32))
    requires
        working@.len() > 0,
    ensures
        forall|i: int| 0 <= i < working@.len() ==> r.0 <= #[trigger] working@[i].block_num
            <= r.1,
        exists|i: int| 0 <= i < working@.len() && working@[i].block_num == r.0,
        exists|i: int| 0 <= i < working@.len() && working@[i].block_num == r.1,
{
    let n = working.len();
    let mut lo: u32 = working[0].block_num;
    let mut hi: u32 = working[0].block_num;
    let mut i: usize = 1;
    while i < n
        invariant
            n == working@.len(),
            1 <= i <= n,
            forall|j: int| 0 <= j < i ==> lo <= #[trigger] working@[j].block_num <= hi,
            exists|j: int| 0 <= j < i && working@[j].block_num == lo,
            exists|j: int| 0 <= j < i && working@[j].block_num == hi,
        decreases n - i,
    {
        let b = working[i].block_num;
        if b < lo {
            lo = b;
        }
        if b > hi {
            hi = b;
        }
        i += 1;
    }
    (lo, hi)
}

/// One round of the worker against the store it probes: the records whose
/// blocks are now present are upserted, the rest come back for the next
/// round (after a sleep, while any remain). Referential integrity of
/// storage is preserved: nothing is released for an absent block.
pub fn defer_round(db: &mut Database, working: Vec<StorageChange>) -> (remaining: Vec<StorageChange>)
    requires
        working@.len() > 0,
    ensures
        ({
            let miss = missing_between(
                old(db)@,
                spec_min_bn(working@),
                spec_max_bn(working@) + 1,
            );
            &&& final(db)@ == replay(old(db)@, storage_inserts(ready_part(working@, miss)))
            &&& remaining@ == deferred_part(working@, miss)
            &&& (storage_integrity(old(db)@) ==> storage_integrity(final(db)@))
            &&& final(db)@.blocks == old(db)@.blocks
            &&& final(db)@.metadata == old(db)@.metadata
        }),
{
    let (lo, hi) = block_num_bounds(&working);
    proof {
        lemma_bounds_are_extremes(working@, lo, hi);
    }
    let missing = db.missing_in_range(lo, hi);
    let ghost d0 = db@;
    let ghost w = working@;
    let (ready, remaining) = partition_ready(working, &missing);
    proof {
        lemma_ready_part_props(w, missing@);
        assert forall|j: int| 0 <= j < ready@.len() implies has_block_num(
            d0,
            #[trigger] ready@[j].block_num,
        ) by {
            assert(w.contains(ready@[j]));
            let k = choose|k: int| 0 <= k < w.len() && w[k] == ready@[j];
            assert(lo <= w[k].block_num <= hi);
            lemma_missing_between_contains(d0, lo as int, hi as int + 1, ready@[j].block_num);
        }
    }
    let ghost msgs = storage_inserts(ready@);
    let n = ready.len();
    let mut i: usize = 0;
    while i < n
        invariant
            n == ready@.len(),
            i <= n,
            msgs == storage_inserts(ready@),
            msgs.len() == n,
            db@ == replay(d0, msgs.take(i as int)),
            db@.blocks == d0.blocks,
            db@.metadata == d0.metadata,
            storage_integrity(d0) ==> storage_integrity(db@),
            forall|j: int| 0 <= j < n ==> has_block_num(d0, #[trigger] ready@[j].block_num),
        decreases n - i,
    {
        let ghost dcur = db@;
        db.upsert_storage(&ready[i]);
        proof {
            lemma_replay_snoc(d0, msgs.take(i as int), msgs[i as int]);
            assert(msgs.take(i as int).push(msgs[i as int]) =~= msgs.take(i + 1));
            lemma_has_block_num_same(d0, dcur, ready@[i as int].block_num);
            lemma_apply_storage_integrity(dcur, ready@[i as int]@);
        }
        i += 1;
    }
    proof {
        assert(msgs.take(n as int) =~= msgs);
    }
    remaining
}

/// The least block number of a non-empty run.
pub open spec fn spec_min_bn(s: Seq<StorageChange>) -> int
    decreases s.len(),
{
    if s.len() <= 1 {
        s[0].block_num as int
    } else if s.last().block_num < spec_min_bn(s.drop_last()) {
        s.last().block_num as int
    } else {
        spec_min_bn(s.drop_last())
    }
}

/// The greatest block number of a non-empty run.
pub open spec fn spec_max_bn(s: Seq<StorageChange>) -> int
    decreases s.len(),
{
    if s.len() <= 1 {
        s[0].block_num as int
    } else if s.last().block_num > spec_max_bn(s.drop_last()) {
        s.last().block_num as int
    } else {
        spec_max_bn(s.drop_last())
    }
}

/// Bounds that are attained and enclose every block number are the extremes.
proof fn lemma_bounds_are_extremes(s: Seq<StorageChange>, lo: u32, hi: u32)
    requires
        s.len() > 0,
        forall|i: int| 0 <= i < s.len() ==> lo <= #[trigger] s[i].block_num <= hi,
        exists|i: int| 0 <= i < s.len() && s[i].block_num == lo,
        exists|i: int| 0 <= i < s.len() && s[i].block_num == hi,
    ensures
        spec_min_bn(s) == lo,
        spec_max_bn(s) == hi,
{
    lemma_min_max_in(s);
    let km = choose|k: int| 0 <= k < s.len() && s[k].block_num == spec_min_bn(s);
    let kx = choose|k: int| 0 <= k < s.len() && s[k].block_num == spec_max_bn(s);
    assert(lo <= s[km].block_num);
    assert(s[kx].block_num <= hi);
    let jl = choose|j: int| 0 <= j < s.len() && s[j].block_num == lo;
    let jh = choose|j: int| 0 <= j < s.len() && s[j].block_num == hi;
    lemma_min_max_bound(s, jl);
    lemma_min_max_bound(s, jh);
}

/// The extremes are attained by some record.
proof fn lemma_min_max_in(s: Seq<StorageChange>)
    requires
        s.len() > 0,
    ensures
        exists|k: int| 0 <= k < s.len() && s[k].block_num == spec_min_bn(s),
        exists|k: int| 0 <= k < s.len() && s[k].block_num == spec_max_bn(s),
    decreases s.len(),
{
    if s.len() == 1 {
        assert(s[0].block_num == spec_min_bn(s));
        assert(s[0].block_num == spec_max_bn(s));
    } else {
        lemma_min_max_in(s.drop_last());
        if s.last().block_num < spec_min_bn(s.drop_last()) {
            assert(s[s.len() - 1].block_num == spec_min_bn(s));
        } else {
            let k = choose|k: int| 0 <= k < s.drop_last().len() && s.drop_last()[k].block_num
                == spec_min_bn(s.drop_last());
            assert(s[k].block_num == spec_min_bn(s));
        }
        if s.last().block_num > spec_max_bn(s.drop_last()) {
            assert(s[s.len() - 1].block_num == spec_max_bn(s));
        } else {
            let k = choose|k: int| 0 <= k < s.drop_last().len() && s.drop_last()[k].block_num
                == spec_max_bn(s.drop_last());
            assert(s[k].block_num == spec_max_bn(s));
        }
    }
}

/// Every record's block number lies between the extremes.
proof fn lemma_min_max_bound(s: Seq<StorageChange>, j: int)
    requires
        s.len() > 0,
        0 <= j < s.len(),
    ensures
        spec_min_bn(s) <= s[j].block_num <= spec_max_bn(s),
    decreases s.len(),
{
    if s.len() == 1 {
    } else if j == s.len() - 1 {
        lemma_min_max_bound(s.drop_last(), 0);
    } else {
        lemma_min_max_bound(s.drop_last(), j);
        assert(s.drop_last()[j] == s[j]);
    }
}

} // verus!
