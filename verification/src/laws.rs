//! Replay safety of the store: every insert path is idempotent under the
//! tables' conflict policies, so feeding any finite record stream to the
//! sink twice leaves exactly the state of feeding it once. This is what
//! makes at-least-once delivery from the pipeline acceptable.

use vstd::prelude::*;
use crate::db::DatabaseV;
use crate::db::InsertV;
use crate::db::apply;
use crate::db::apply_storage;
use crate::db::find_storage;
use crate::db::has_block_hash;
use crate::db::has_meta;
use crate::db::lemma_find_storage_first;
use crate::db::lemma_replay_append;
use crate::db::merged_storage_row;
use crate::db::replay;
use crate::db::storage_conflict;
use crate::types::StorageChangeV;
use crate::metadata_worker::lemma_block_present;
use crate::metadata_worker::lemma_meta_present;

verus! {

/// Two storage rows that agree on every column but `is_full`.
pub open spec fn eq_except_full(a: StorageChangeV, b: StorageChangeV) -> bool {
    a.block_num == b.block_num && a.block_hash == b.block_hash && a.key == b.key && a.value
        == b.value
}

/// Whether a record rewrites the storage row colliding with `c`.
pub open spec fn writes_key(m: InsertV, c: StorageChangeV) -> bool {
    m matches InsertV::Storage(c2) && storage_conflict(c2, c)
}

/// Whether some record of the stream rewrites the row colliding with `c`.
pub open spec fn has_writer(t: Seq<InsertV>, c: StorageChangeV) -> bool {
    exists|j: int| 0 <= j < t.len() && writes_key(t[j], c)
}

/// An index that collides and is preceded by no colliding index is the one
/// `find_storage` names.
pub proof fn lemma_find_unique(s: Seq<StorageChangeV>, c: StorageChangeV, i: int)
    requires
        0 <= i < s.len(),
        storage_conflict(s[i], c),
        forall|j: int| 0 <= j < i ==> !storage_conflict(s[j], c),
    ensures
        find_storage(s, c) == i,
    decreases s.len(),
{
    if i == 0 {
    } else {
        let rest = s.drop_first();
        assert(forall|j: int| 0 <= j < rest.len() ==> rest[j] == s[j + 1]);
        lemma_find_unique(rest, c, i - 1);
    }
}

/// Collision depends only on the key columns, so two storages that agree on
/// them row for row name the same index.
pub proof fn lemma_find_same(s1: Seq<StorageChangeV>, s2: Seq<StorageChangeV>, c: StorageChangeV)
    requires
        s1.len() == s2.len(),
        forall|j: int| 0 <= j < s1.len() ==> eq_except_full(#[trigger] s1[j], s2[j]),
    ensures
        find_storage(s1, c) == find_storage(s2, c),
{
    lemma_find_storage_first(s1, c);
    lemma_find_storage_first(s2, c);
    let f1 = find_storage(s1, c);
    let f2 = find_storage(s2, c);
    assert(forall|j: int| 0 <= j < s1.len() ==> (storage_conflict(#[trigger] s1[j], c)
        <==> storage_conflict(s2[j], c)));
    if f1 == -1 {
        if f2 != -1 {
            assert(storage_conflict(s2[f2], c));
            assert(storage_conflict(s1[f2], c));
            assert(false);
        }
    } else {
        assert(eq_except_full(s1[f1], s2[f1]));
        assert(storage_conflict(s2[f1], c));
        assert forall|j: int| 0 <= j < f1 implies !storage_conflict(s2[j], c) by {
            assert(eq_except_full(s1[j], s2[j]));
            assert(!storage_conflict(s1[j], c));
        }
        lemma_find_unique(s2, c, f1);
    }
}

/// The store absorbs `c`: upserting it changes nothing.
pub open spec fn absorbed(d: DatabaseV, c: StorageChangeV) -> bool {
    apply_storage(d, c) == d
}

/// Right after an upsert of `c`, the store absorbs `c`, and a colliding row
/// exists.
pub proof fn lemma_apply_storage_absorbs(d: DatabaseV, c: StorageChangeV)
    ensures
        absorbed(apply_storage(d, c), c),
        find_storage(apply_storage(d, c).storage, c) != -1,
{
    let e = apply_storage(d, c);
    lemma_find_storage_first(d.storage, c);
    let f = find_storage(d.storage, c);
    if f == -1 {
        assert(e.storage == d.storage.push(c));
        assert(storage_conflict(e.storage[d.storage.len() as int], c));
        assert(forall|j: int| 0 <= j < d.storage.len() ==> e.storage[j] == d.storage[j]);
        lemma_find_unique(e.storage, c, d.storage.len() as int);
        assert(merged_storage_row(c, c) == c);
        assert(e.storage.update(d.storage.len() as int, c) =~= e.storage);
        assert(apply_storage(e, c) =~= e);
    } else {
        let row = merged_storage_row(d.storage[f], c);
        assert(e.storage == d.storage.update(f, row));
        assert(forall|j: int| 0 <= j < d.storage.len() ==> eq_except_full(
            #[trigger] d.storage[j],
            e.storage[j],
        ));
        lemma_find_same(d.storage, e.storage, c);
        assert(find_storage(e.storage, c) == f);
        assert(merged_storage_row(e.storage[f], c) == e.storage[f]);
        assert(e.storage.update(f, e.storage[f]) =~= e.storage);
        assert(apply_storage(e, c) =~= e);
    }
}

/// Absorption of `c` survives any record that does not rewrite `c`'s row.
pub proof fn lemma_absorbed_step(d: DatabaseV, m: InsertV, c: StorageChangeV)
    requires
        absorbed(d, c),
        find_storage(d.storage, c) != -1,
        !writes_key(m, c),
    ensures
        absorbed(apply(d, m), c),
        find_storage(apply(d, m).storage, c) != -1,
{
    let e = apply(d, m);
    lemma_find_storage_first(d.storage, c);
    let i = find_storage(d.storage, c);
    assert(merged_storage_row(d.storage[i], c) == d.storage[i]) by {
        assert(apply_storage(d, c).storage == d.storage.update(i, merged_storage_row(
            d.storage[i],
            c,
        )));
        assert(apply_storage(d, c).storage[i] == d.storage[i]);
    }
    match m {
        InsertV::Block(_) => {
            assert(e.storage == d.storage);
            assert(apply_storage(e, c) =~= e);
        }
        InsertV::Meta(_) => {
            assert(e.storage == d.storage);
            assert(apply_storage(e, c) =~= e);
        }
        InsertV::Storage(c2) => {
            lemma_find_storage_first(d.storage, c2);
            let j0 = find_storage(d.storage, c2);
            if j0 == -1 {
                assert(e.storage == d.storage.push(c2));
                assert(forall|j: int| 0 <= j < d.storage.len() ==> e.storage[j]
                    == d.storage[j]);
                lemma_find_unique(e.storage, c, i);
                assert(merged_storage_row(e.storage[i], c) == e.storage[i]);
                assert(e.storage.update(i, e.storage[i]) =~= e.storage);
                assert(apply_storage(e, c) =~= e);
            } else {
                assert(storage_conflict(d.storage[j0], c2));
                assert(!storage_conflict(c2, c));
                assert(j0 != i);
                let row = merged_storage_row(d.storage[j0], c2);
                assert(e.storage == d.storage.update(j0, row));
                assert(e.storage[i] == d.storage[i]);
                assert(forall|j: int| 0 <= j < e.storage.len() ==> eq_except_full(
                    #[trigger] d.storage[j],
                    e.storage[j],
                ));
                lemma_find_same(d.storage, e.storage, c);
                assert(find_storage(e.storage, c) == i);
                assert(merged_storage_row(e.storage[i], c) == e.storage[i]);
                assert(e.storage.update(i, e.storage[i]) =~= e.storage);
                assert(apply_storage(e, c) =~= e);
            }
        }
    }
}

/// Absorption of `c` survives a whole stream without a writer of `c`'s row.
pub proof fn lemma_absorbed_replay(d: DatabaseV, t: Seq<InsertV>, c: StorageChangeV)
    requires
        absorbed(d, c),
        find_storage(d.storage, c) != -1,
        !has_writer(t, c),
    ensures
        absorbed(replay(d, t), c),
        find_storage(replay(d, t).storage, c) != -1,
    decreases t.len(),
{
    if t.len() > 0 {
        assert(!writes_key(t[0], c));
        lemma_absorbed_step(d, t[0], c);
        let rest = t.drop_first();
        assert forall|j: int| 0 <= j < rest.len() implies !writes_key(rest[j], c) by {
            assert(rest[j] == t[j + 1]);
        }
        lemma_absorbed_replay(apply(d, t[0]), rest, c);
    }
}

/// A block hash stays present through any record.
pub proof fn lemma_block_hash_step(d: DatabaseV, m: InsertV, h: Seq<u8>)
    requires
        has_block_hash(d, h),
    ensures
        has_block_hash(apply(d, m), h),
{
    let e = apply(d, m);
    let k = choose|k: int| 0 <= k < d.blocks.len() && d.blocks[k].hash == h;
    assert(e.blocks[k].hash == h);
}

/// A block hash stays present through any stream.
pub proof fn lemma_block_hash_replay(d: DatabaseV, t: Seq<InsertV>, h: Seq<u8>)
    requires
        has_block_hash(d, h),
    ensures
        has_block_hash(replay(d, t), h),
    decreases t.len(),
{
    if t.len() > 0 {
        lemma_block_hash_step(d, t[0], h);
        lemma_block_hash_replay(apply(d, t[0]), t.drop_first(), h);
    }
}

/// A metadata version stays present through any record.
pub proof fn lemma_meta_step(d: DatabaseV, m: InsertV, v: u32)
    requires
        has_meta(d, v),
    ensures
        has_meta(apply(d, m), v),
{
    let e = apply(d, m);
    let k = choose|k: int| 0 <= k < d.metadata.len() && d.metadata[k].spec_version == v;
    assert(e.metadata[k].spec_version == v);
}

/// A metadata version stays present through any stream.
pub proof fn lemma_meta_replay(d: DatabaseV, t: Seq<InsertV>, v: u32)
    requires
        has_meta(d, v),
    ensures
        has_meta(replay(d, t), v),
    decreases t.len(),
{
    if t.len() > 0 {
        lemma_meta_step(d, t[0], v);
        lemma_meta_replay(apply(d, t[0]), t.drop_first(), v);
    }
}

/// Two stores that differ at most in `is_full` of the row colliding with
/// `c` — the one difference a replayed upsert can leave behind.
pub open spec fn equiv_at(d1: DatabaseV, d2: DatabaseV, c: StorageChangeV) -> bool {
    ||| d1 == d2
    ||| {
        &&& d1.blocks == d2.blocks
        &&& d1.metadata == d2.metadata
        &&& d1.storage.len() == d2.storage.len()
        &&& find_storage(d1.storage, c) != -1
        &&& {
            let i = find_storage(d1.storage, c);
            &&& eq_except_full(d1.storage[i], d2.storage[i])
            &&& forall|j: int| 0 <= j < d1.storage.len() && j != i ==> d1.storage[j]
                == d2.storage[j]
        }
    }
}

/// One record keeps two such stores related — and a writer of the row makes
/// them equal.
pub proof fn lemma_equiv_step(d1: DatabaseV, d2: DatabaseV, c: StorageChangeV, m: InsertV)
    requires
        equiv_at(d1, d2, c),
    ensures
        writes_key(m, c) ==> apply(d1, m) == apply(d2, m),
        !writes_key(m, c) ==> equiv_at(apply(d1, m), apply(d2, m), c),
{
    if d1 == d2 {
        if !writes_key(m, c) {
            assert(equiv_at(apply(d1, m), apply(d2, m), c));
        }
    } else {
        lemma_find_storage_first(d1.storage, c);
        let i = find_storage(d1.storage, c);
        assert(forall|j: int| 0 <= j < d1.storage.len() ==> eq_except_full(
            #[trigger] d1.storage[j],
            d2.storage[j],
        ));
        lemma_find_same(d1.storage, d2.storage, c);
        match m {
            InsertV::Block(b) => {
                if has_block_hash(d1, b.hash) {
                    let k = choose|k: int| 0 <= k < d1.blocks.len() && d1.blocks[k].hash
                        == b.hash;
                    assert(d2.blocks[k].hash == b.hash);
                } else {
                    if has_block_hash(d2, b.hash) {
                        let k = choose|k: int| 0 <= k < d2.blocks.len() && d2.blocks[k].hash
                            == b.hash;
                        assert(d1.blocks[k].hash == b.hash);
                        assert(false);
                    }
                }
                assert(apply(d1, m).storage == d1.storage);
                assert(apply(d2, m).storage == d2.storage);
                assert(equiv_at(apply(d1, m), apply(d2, m), c));
            }
            InsertV::Meta(mm) => {
                if has_meta(d1, mm.spec_version) {
                    let k = choose|k: int| 0 <= k < d1.metadata.len()
                        && d1.metadata[k].spec_version == mm.spec_version;
                    assert(d2.metadata[k].spec_version == mm.spec_version);
                } else {
                    if has_meta(d2, mm.spec_version) {
                        let k = choose|k: int| 0 <= k < d2.metadata.len()
                            && d2.metadata[k].spec_version == mm.spec_version;
                        assert(d1.metadata[k].spec_version == mm.spec_version);
                        assert(false);
                    }
                }
                assert(apply(d1, m).storage == d1.storage);
                assert(apply(d2, m).storage == d2.storage);
                assert(equiv_at(apply(d1, m), apply(d2, m), c));
            }
            InsertV::Storage(c2) => {
                lemma_find_storage_first(d1.storage, c2);
                lemma_find_same(d1.storage, d2.storage, c2);
                let f = find_storage(d1.storage, c2);
                if storage_conflict(c2, c) {
                    assert forall|j: int| 0 <= j < d1.storage.len() implies (storage_conflict(
                        #[trigger] d1.storage[j],
                        c2,
                    ) <==> storage_conflict(d1.storage[j], c)) by {}
                    lemma_find_unique(d1.storage, c2, i);
                    assert(f == i);
                    let r1 = merged_storage_row(d1.storage[i], c2);
                    let r2 = merged_storage_row(d2.storage[i], c2);
                    assert(r1 == r2);
                    assert(apply(d1, m).storage =~= apply(d2, m).storage);
                    assert(apply(d1, m) =~= apply(d2, m));
                } else {
                    if f == -1 {
                        assert(apply(d1, m).storage == d1.storage.push(c2));
                        assert(apply(d2, m).storage == d2.storage.push(c2));
                        assert forall|j: int| 0 <= j < i implies !storage_conflict(
                            #[trigger] d1.storage.push(c2)[j],
                            c,
                        ) by {
                            assert(d1.storage.push(c2)[j] == d1.storage[j]);
                        }
                        assert(d1.storage.push(c2)[i] == d1.storage[i]);
                        lemma_find_unique(d1.storage.push(c2), c, i);
                        assert(equiv_at(apply(d1, m), apply(d2, m), c));
                    } else {
                        assert(storage_conflict(d1.storage[f], c2));
                        assert(f != i);
                        let r1 = merged_storage_row(d1.storage[f], c2);
                        let r2 = merged_storage_row(d2.storage[f], c2);
                        assert(r1 == r2);
                        let s1 = d1.storage.update(f, r1);
                        let s2 = d2.storage.update(f, r2);
                        assert(apply(d1, m).storage == s1);
                        assert(apply(d2, m).storage == s2);
                        assert forall|j: int| 0 <= j < i implies !storage_conflict(
                            #[trigger] s1[j],
                            c,
                        ) by {
                            if j == f {
                                assert(eq_except_full(s1[j], d1.storage[j]));
                            } else {
                                assert(s1[j] == d1.storage[j]);
                            }
                        }
                        assert(s1[i] == d1.storage[i]);
                        lemma_find_unique(s1, c, i);
                        assert(equiv_at(apply(d1, m), apply(d2, m), c));
                    }
                }
            }
        }
    }
}

/// A stream containing a writer of `c`'s row erases the one allowed
/// difference: both stores replay to the same state.
pub proof fn lemma_equiv_replay(d1: DatabaseV, d2: DatabaseV, t: Seq<InsertV>, c: StorageChangeV)
    requires
        equiv_at(d1, d2, c),
        has_writer(t, c),
    ensures
        replay(d1, t) == replay(d2, t),
    decreases t.len(),
{
    let j = choose|j: int| 0 <= j < t.len() && writes_key(t[j], c);
    lemma_equiv_step(d1, d2, c, t[0]);
    let rest = t.drop_first();
    if writes_key(t[0], c) {
        assert(replay(apply(d1, t[0]), rest) == replay(apply(d2, t[0]), rest));
    } else {
        assert(j != 0);
        assert(rest[j - 1] == t[j]);
        assert(has_writer(rest, c));
        lemma_equiv_replay(apply(d1, t[0]), apply(d2, t[0]), rest, c);
    }
}

/// Replaying a stream over its own result changes nothing: the state
/// already carries every record's effect or a later overwrite of it.
pub proof fn lemma_replay_absorb(d: DatabaseV, s: Seq<InsertV>)
    ensures
        replay(replay(d, s), s) == replay(d, s),
    decreases s.len(),
{
    if s.len() > 0 {
        let m = s[0];
        let t = s.drop_first();
        let d1 = apply(d, m);
        let e = replay(d1, t);
        assert(replay(d, s) == e);
        lemma_replay_absorb(d1, t);
        assert(replay(e, t) == e);
        assert(replay(e, s) == replay(apply(e, m), t));
        match m {
            InsertV::Block(b) => {
                lemma_block_present(d, b);
                lemma_block_hash_replay(d1, t, b.hash);
                assert(apply(e, m) == e);
            }
            InsertV::Meta(mm) => {
                lemma_meta_present(d, mm);
                lemma_meta_replay(d1, t, mm.spec_version);
                assert(apply(e, m) == e);
            }
            InsertV::Storage(c) => {
                lemma_apply_storage_absorbs(d, c);
                if !has_writer(t, c) {
                    lemma_absorbed_replay(d1, t, c);
                    assert(apply(e, m) == e);
                } else {
                    lemma_presence_replay(d1, t, c);
                    lemma_find_storage_first(e.storage, c);
                    let i = find_storage(e.storage, c);
                    let r = merged_storage_row(e.storage[i], c);
                    assert(apply(e, m).storage == e.storage.update(i, r));
                    assert forall|j: int| 0 <= j < e.storage.len() implies eq_except_full(
                        #[trigger] e.storage[j],
                        apply(e, m).storage[j],
                    ) by {}
                    lemma_find_same(e.storage, apply(e, m).storage, c);
                    assert(equiv_at(apply(e, m), e, c)) by {
                        assert(find_storage(apply(e, m).storage, c) == i);
                        assert(eq_except_full(apply(e, m).storage[i], e.storage[i]));
                    }
                    lemma_equiv_replay(apply(e, m), e, t, c);
                }
            }
        }
    }
}

/// A colliding row stays present through any record.
pub proof fn lemma_presence_step(d: DatabaseV, m: InsertV, c: StorageChangeV)
    requires
        find_storage(d.storage, c) != -1,
    ensures
        find_storage(apply(d, m).storage, c) != -1,
{
    lemma_find_storage_first(d.storage, c);
    let i = find_storage(d.storage, c);
    let e = apply(d, m);
    match m {
        InsertV::Block(_) => {
            assert(e.storage == d.storage);
        }
        InsertV::Meta(_) => {
            assert(e.storage == d.storage);
        }
        InsertV::Storage(c2) => {
            lemma_find_storage_first(d.storage, c2);
            let f = find_storage(d.storage, c2);
            if f == -1 {
                assert(e.storage == d.storage.push(c2));
                assert forall|j: int| 0 <= j < i implies !storage_conflict(
                    #[trigger] e.storage[j],
                    c,
                ) by {
                    assert(e.storage[j] == d.storage[j]);
                }
                assert(e.storage[i] == d.storage[i]);
                lemma_find_unique(e.storage, c, i);
            } else {
                assert(e.storage == d.storage.update(f, merged_storage_row(d.storage[f], c2)));
                assert forall|j: int| 0 <= j < e.storage.len() implies eq_except_full(
                    #[trigger] d.storage[j],
                    e.storage[j],
                ) by {}
                lemma_find_same(d.storage, e.storage, c);
            }
        }
    }
}

/// A colliding row stays present through any stream.
pub proof fn lemma_presence_replay(d: DatabaseV, t: Seq<InsertV>, c: StorageChangeV)
    requires
        find_storage(d.storage, c) != -1,
    ensures
        find_storage(replay(d, t).storage, c) != -1,
    decreases t.len(),
{
    if t.len() > 0 {
        lemma_presence_step(d, t[0], c);
        lemma_presence_replay(apply(d, t[0]), t.drop_first(), c);
    }
}

/// Feeding any finite record stream twice leaves exactly the state of
/// feeding it once: every insert path of the sink is replay-safe.
pub proof fn lemma_replay_idempotent(d: DatabaseV, s: Seq<InsertV>)
    ensures
        replay(d, s + s) == replay(d, s),
{
    lemma_replay_append(d, s, s);
    lemma_replay_absorb(d, s);
}

/// Releasing a run of storage records whose blocks are all present keeps
/// referential integrity: no storage row ever references an absent block
/// through the deferred-release path.
pub proof fn lemma_release_preserves_integrity(d: DatabaseV, cs: Seq<StorageChangeV>)
    requires
        crate::db::storage_integrity(d),
        forall|i: int| 0 <= i < cs.len() ==> crate::db::has_block_num(
            d,
            #[trigger] cs[i].block_num,
        ),
    ensures
        crate::db::storage_integrity(
            replay(d, cs.map_values(|c: StorageChangeV| InsertV::Storage(c))),
        ),
        replay(d, cs.map_values(|c: StorageChangeV| InsertV::Storage(c))).blocks == d.blocks,
    decreases cs.len(),
{
    let msgs = cs.map_values(|c: StorageChangeV| InsertV::Storage(c));
    if cs.len() > 0 {
        let d1 = apply(d, msgs[0]);
        assert(msgs[0] == InsertV::Storage(cs[0]));
        crate::db::lemma_apply_storage_integrity(d, cs[0]);
        assert(d1.blocks == d.blocks);
        let rest = cs.drop_first();
        assert forall|i: int| 0 <= i < rest.len() implies crate::db::has_block_num(
            d1,
            #[trigger] rest[i].block_num,
        ) by {
            assert(rest[i] == cs[i + 1]);
            crate::db::lemma_has_block_num_same(d, d1, cs[i + 1].block_num);
        }
        lemma_release_preserves_integrity(d1, rest);
        assert(msgs.drop_first() =~= rest.map_values(|c: StorageChangeV| InsertV::Storage(c)));
    }
}

} // verus!
