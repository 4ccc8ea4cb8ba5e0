//! In-memory model of the three tables the sink writes, with the exact
//! conflict policies of the SQL store: `blocks` and `metadata` insert-if-absent
//! (ON CONFLICT DO NOTHING), `storage` upserts on its unique key of
//! (block hash, storage key, value), updating only `is_full` — the conflict
//! key pins the other columns and `block_num` is not in the update list.
//! Every insert path is replay-safe, which makes at-least-once delivery from
//! upstream acceptable.

use vstd::prelude::*;
use crate::types::Block;
use crate::types::BlockV;
use crate::types::BatchBlock;
use crate::types::Metadata;
use crate::types::MetadataV;
use crate::types::StorageChange;
use crate::types::StorageChangeV;
use crate::types::block_views;
use crate::types::storage_views;

verus! {

/// The views of a sequence of metadata rows, in order.
pub open spec fn meta_views(s: Seq<Metadata>) -> Seq<MetadataV> {
    s.map_values(|m: Metadata| m@)
}

/// Mathematical view of the store: the three tables as row sequences in
/// insertion order.
#[verifier::ext_equal]
pub struct DatabaseV {
    pub blocks: Seq<BlockV>,
    pub storage: Seq<StorageChangeV>,
    pub metadata: Seq<MetadataV>,
}

/// A block row with this hash exists.
pub open spec fn has_block_hash(d: DatabaseV, h: Seq<u8>) -> bool {
    exists|i: int| 0 <= i < d.blocks.len() && d.blocks[i].hash == h
}

/// A block row with this number exists.
pub open spec fn has_block_num(d: DatabaseV, n: u32) -> bool {
    exists|i: int| 0 <= i < d.blocks.len() && d.blocks[i].block_num == n
}

/// A metadata row for this spec version exists.
pub open spec fn has_meta(d: DatabaseV, v: u32) -> bool {
    exists|i: int| 0 <= i < d.metadata.len() && d.metadata[i].spec_version == v
}

/// Two storage rows collide on the table's unique key:
/// (block hash, storage key, value).
pub open spec fn storage_conflict(a: StorageChangeV, b: StorageChangeV) -> bool {
    a.block_hash == b.block_hash && a.key == b.key && a.value == b.value
}

/// Index of the first storage row colliding with `c`, or -1.
pub open spec fn find_storage(s: Seq<StorageChangeV>, c: StorageChangeV) -> int
    decreases s.len(),
{
    if s.len() == 0 {
        -1
    } else if storage_conflict(s[0], c) {
        0
    } else if find_storage(s.drop_first(), c) == -1 {
        -1
    } else {
        find_storage(s.drop_first(), c) + 1
    }
}

/// `find_storage` names the first colliding row, and -1 means none collides.
pub proof fn lemma_find_storage_first(s: Seq<StorageChangeV>, c: StorageChangeV)
    ensures
        find_storage(s, c) == -1 ==> forall|j: int|
            0 <= j < s.len() ==> !storage_conflict(s[j], c),
        find_storage(s, c) != -1 ==> 0 <= find_storage(s, c) < s.len()
            && storage_conflict(s[find_storage(s, c)], c)
            && forall|j: int| 0 <= j < find_storage(s, c) ==> !storage_conflict(s[j], c),
    decreases s.len(),
{
    if s.len() > 0 && !storage_conflict(s[0], c) {
        let rest = s.drop_first();
        lemma_find_storage_first(rest, c);
        assert(forall|j: int| 0 <= j < rest.len() ==> rest[j] == s[j + 1]);
        let r = find_storage(rest, c);
        if r == -1 {
            assert(find_storage(s, c) == -1);
            assert forall|j: int| 0 <= j < s.len() implies !storage_conflict(s[j], c) by {
                if j > 0 {
                    assert(s[j] == rest[j - 1]);
                }
            }
        } else {
            assert(find_storage(s, c) == r + 1);
            assert(s[r + 1] == rest[r]);
            assert forall|j: int| 0 <= j < r + 1 implies !storage_conflict(s[j], c) by {
                if j > 0 {
                    assert(s[j] == rest[j - 1]);
                }
            }
        }
    }
}

/// Inserting a block row: a no-op when the hash is already present.
pub open spec fn apply_block(d: DatabaseV, b: BlockV) -> DatabaseV {
    if has_block_hash(d, b.hash) {
        d
    } else {
        DatabaseV { blocks: d.blocks.push(b), ..d }
    }
}

/// Inserting a metadata row: a no-op when the version is already present.
pub open spec fn apply_meta(d: DatabaseV, m: MetadataV) -> DatabaseV {
    if has_meta(d, m.spec_version) {
        d
    } else {
        DatabaseV { metadata: d.metadata.push(m), ..d }
    }
}

/// The row a colliding storage upsert leaves behind: only `is_full` is
/// rewritten; the conflict key pins the rest and `block_num` is kept.
pub open spec fn merged_storage_row(row: StorageChangeV, c: StorageChangeV) -> StorageChangeV {
    StorageChangeV { is_full: c.is_full, ..row }
}

/// Upserting a storage row: new rows append, colliding rows are updated.
pub open spec fn apply_storage(d: DatabaseV, c: StorageChangeV) -> DatabaseV {
    let i = find_storage(d.storage, c);
    if i == -1 {
        DatabaseV { storage: d.storage.push(c), ..d }
    } else {
        DatabaseV { storage: d.storage.update(i, merged_storage_row(d.storage[i], c)), ..d }
    }
}

/// One record offered to the sink.
pub enum InsertV {
    Block(BlockV),
    Storage(StorageChangeV),
    Meta(MetadataV),
}

/// What the sink can be asked to insert, singly or batched.
pub enum InsertItem {
    Block(Block),
    BatchBlock(BatchBlock),
    Storage(StorageChange),
    StorageBatch(Vec<StorageChange>),
    Metadata(Metadata),
}

/// A run of blocks as a stream of block records.
pub open spec fn block_inserts(s: Seq<Block>) -> Seq<InsertV> {
    s.map_values(|b: Block| InsertV::Block(b@))
}

/// A run of storage changes as a stream of storage records.
pub open spec fn storage_inserts(s: Seq<StorageChange>) -> Seq<InsertV> {
    s.map_values(|c: StorageChange| InsertV::Storage(c@))
}

/// The record stream one sink request stands for.
pub open spec fn items_of(item: InsertItem) -> Seq<InsertV> {
    match item {
        InsertItem::Block(b) => seq![InsertV::Block(b@)],
        InsertItem::BatchBlock(bb) => block_inserts(bb.inner@),
        InsertItem::Storage(c) => seq![InsertV::Storage(c@)],
        InsertItem::StorageBatch(cs) => storage_inserts(cs@),
        InsertItem::Metadata(m) => seq![InsertV::Meta(m@)],
    }
}

/// The store after one record.
pub open spec fn apply(d: DatabaseV, m: InsertV) -> DatabaseV {
    match m {
        InsertV::Block(b) => apply_block(d, b),
        InsertV::Storage(c) => apply_storage(d, c),
        InsertV::Meta(mm) => apply_meta(d, mm),
    }
}

/// The store after a whole stream of records, in order.
pub open spec fn replay(d: DatabaseV, s: Seq<InsertV>) -> DatabaseV
    decreases s.len(),
{
    if s.len() == 0 {
        d
    } else {
        replay(apply(d, s[0]), s.drop_first())
    }
}

/// Replaying a stream then one more record is applying that record to the
/// replayed store.
pub proof fn lemma_replay_snoc(d: DatabaseV, s: Seq<InsertV>, x: InsertV)
    ensures
        replay(d, s.push(x)) == apply(replay(d, s), x),
    decreases s.len(),
{
    let t = s.push(x).drop_first();
    if s.len() == 0 {
        assert(s.push(x)[0] == x);
        assert(t =~= Seq::<InsertV>::empty());
        assert(replay(apply(d, x), t) == apply(d, x));
        assert(replay(d, s.push(x)) == replay(apply(d, x), t));
        assert(replay(d, s) == d);
    } else {
        assert(s.push(x)[0] == s[0]);
        assert(t =~= s.drop_first().push(x));
        lemma_replay_snoc(apply(d, s[0]), s.drop_first(), x);
        assert(replay(d, s.push(x)) == replay(apply(d, s[0]), t));
        assert(replay(d, s) == replay(apply(d, s[0]), s.drop_first()));
    }
}

/// Replaying a concatenation is replaying one stream after the other.
pub proof fn lemma_replay_append(d: DatabaseV, s: Seq<InsertV>, t: Seq<InsertV>)
    ensures
        replay(d, s + t) == replay(replay(d, s), t),
    decreases t.len(),
{
    if t.len() == 0 {
        assert(s + t =~= s);
    } else {
        lemma_replay_append(d, s, t.drop_last());
        assert((s + t).drop_last() =~= s + t.drop_last());
        assert((s + t).last() == t.last());
        lemma_replay_snoc(d, s + t.drop_last(), t.last());
        lemma_replay_snoc(replay(d, s), t.drop_last(), t.last());
        assert((s + t.drop_last()).push(t.last()) =~= s + t);
        assert(t.drop_last().push(t.last()) =~= t);
    }
}

/// The numbers in `[lo, hi)` that have no block row, ascending.
pub open spec fn missing_between(d: DatabaseV, lo: int, hi: int) -> Seq<u32>
    decreases hi - lo,
{
    if lo >= hi {
        Seq::empty()
    } else {
        missing_between(d, lo, hi - 1) + if has_block_num(d, (hi - 1) as u32) {
            Seq::empty()
        } else {
            seq![(hi - 1) as u32]
        }
    }
}

/// Membership in the missing-numbers run: exactly the numbers of the range
/// without a block row.
pub proof fn lemma_missing_between_contains(d: DatabaseV, lo: int, hi: int, n: u32)
    requires
        0 <= lo,
        hi <= u32::MAX + 1,
    ensures
        missing_between(d, lo, hi).contains(n) <==> (lo <= n < hi && !has_block_num(d, n)),
    decreases hi - lo,
{
    if lo < hi {
        lemma_missing_between_contains(d, lo, hi - 1, n);
        let prefix = missing_between(d, lo, hi - 1);
        let whole = missing_between(d, lo, hi);
        if has_block_num(d, (hi - 1) as u32) {
            assert(whole =~= prefix);
        } else {
            assert(whole =~= prefix.push((hi - 1) as u32));
            assert(whole.last() == (hi - 1) as u32);
            if n == ((hi - 1) as u32) {
                assert(whole.contains(n));
            }
            if prefix.contains(n) {
                let k = choose|k: int| 0 <= k < prefix.len() && prefix[k] == n;
                assert(whole[k] == n);
                assert(whole.contains(n));
            }
            assert forall|k: int| 0 <= k < whole.len() && whole[k] == n implies (lo <= n < hi
                && !has_block_num(d, n)) by {
                if k < prefix.len() {
                    assert(prefix.contains(whole[k]));
                }
            }
        }
    }
}

/// Referential integrity of storage: every storage row's block number has a
/// block row.
pub open spec fn storage_integrity(d: DatabaseV) -> bool {
    forall|i: int| 0 <= i < d.storage.len() ==> has_block_num(d, d.storage[i].block_num)
}

/// Metadata integrity: every block row's spec version has a metadata row.
pub open spec fn meta_integrity(d: DatabaseV) -> bool {
    forall|i: int| 0 <= i < d.blocks.len() ==> has_meta(d, d.blocks[i].spec_version)
}

/// A block number present under one store is present under another with the
/// same block table.
pub proof fn lemma_has_block_num_same(d: DatabaseV, e: DatabaseV, n: u32)
    requires
        has_block_num(d, n),
        e.blocks == d.blocks,
    ensures
        has_block_num(e, n),
{
    let k = choose|k: int| 0 <= k < d.blocks.len() && d.blocks[k].block_num == n;
    assert(e.blocks[k].block_num == n);
}

/// A metadata version present under one store is present under another with
/// the same metadata table.
pub proof fn lemma_has_meta_same(d: DatabaseV, e: DatabaseV, v: u32)
    requires
        has_meta(d, v),
        e.metadata == d.metadata,
    ensures
        has_meta(e, v),
{
    let k = choose|k: int| 0 <= k < d.metadata.len() && d.metadata[k].spec_version == v;
    assert(e.metadata[k].spec_version == v);
}

/// Inserting a block whose metadata row is present keeps metadata integrity;
/// inserting any block keeps storage integrity.
pub proof fn lemma_apply_block_integrity(d: DatabaseV, b: BlockV)
    ensures
        meta_integrity(d) && has_meta(d, b.spec_version) ==> meta_integrity(apply_block(d, b)),
        storage_integrity(d) ==> storage_integrity(apply_block(d, b)),
{
    let e = apply_block(d, b);
    if storage_integrity(d) {
        assert forall|i: int| 0 <= i < e.storage.len() implies has_block_num(
            e,
            e.storage[i].block_num,
        ) by {
            assert(e.storage[i] == d.storage[i]);
            assert(has_block_num(d, d.storage[i].block_num));
            let k = choose|k: int| 0 <= k < d.blocks.len() && d.blocks[k].block_num
                == d.storage[i].block_num;
            assert(e.blocks[k] == d.blocks[k]);
            assert(e.blocks[k].block_num == e.storage[i].block_num);
        }
    }
    if meta_integrity(d) && has_meta(d, b.spec_version) {
        assert forall|i: int| 0 <= i < e.blocks.len() implies has_meta(
            e,
            e.blocks[i].spec_version,
        ) by {
            if i < d.blocks.len() {
                assert(has_meta(d, d.blocks[i].spec_version));
                lemma_has_meta_same(d, e, d.blocks[i].spec_version);
                assert(e.blocks[i] == d.blocks[i]);
            } else {
                assert(e.blocks[i] == b);
                lemma_has_meta_same(d, e, b.spec_version);
            }
        }
    }
}

/// Inserting a metadata row keeps both integrity invariants.
pub proof fn lemma_apply_meta_integrity(d: DatabaseV, m: MetadataV)
    ensures
        meta_integrity(d) ==> meta_integrity(apply_meta(d, m)),
        storage_integrity(d) ==> storage_integrity(apply_meta(d, m)),
{
    let e = apply_meta(d, m);
    if meta_integrity(d) {
        assert forall|i: int| 0 <= i < e.blocks.len() implies has_meta(
            e,
            e.blocks[i].spec_version,
        ) by {
            assert(e.blocks[i] == d.blocks[i]);
            assert(has_meta(d, d.blocks[i].spec_version));
            let k = choose|k: int| 0 <= k < d.metadata.len() && d.metadata[k].spec_version
                == d.blocks[i].spec_version;
            assert(e.metadata[k].spec_version == e.blocks[i].spec_version);
        }
    }
    if storage_integrity(d) {
        assert forall|i: int| 0 <= i < e.storage.len() implies has_block_num(
            e,
            e.storage[i].block_num,
        ) by {
            assert(e.storage[i] == d.storage[i]);
            assert(has_block_num(d, d.storage[i].block_num));
            lemma_has_block_num_same(d, e, d.storage[i].block_num);
        }
    }
}

/// Upserting a storage row whose block is present keeps storage integrity;
/// metadata integrity is untouched.
pub proof fn lemma_apply_storage_integrity(d: DatabaseV, c: StorageChangeV)
    ensures
        storage_integrity(d) && has_block_num(d, c.block_num) ==> storage_integrity(
            apply_storage(d, c),
        ),
        meta_integrity(d) ==> meta_integrity(apply_storage(d, c)),
{
    let e = apply_storage(d, c);
    let f = find_storage(d.storage, c);
    lemma_find_storage_first(d.storage, c);
    if meta_integrity(d) {
        assert forall|i: int| 0 <= i < e.blocks.len() implies has_meta(
            e,
            e.blocks[i].spec_version,
        ) by {
            assert(e.blocks[i] == d.blocks[i]);
            assert(has_meta(d, d.blocks[i].spec_version));
            lemma_has_meta_same(d, e, d.blocks[i].spec_version);
        }
    }
    if storage_integrity(d) && has_block_num(d, c.block_num) {
        assert forall|i: int| 0 <= i < e.storage.len() implies has_block_num(
            e,
            e.storage[i].block_num,
        ) by {
            if f == -1 && i == d.storage.len() {
                assert(e.storage[i] == c);
                lemma_has_block_num_same(d, e, c.block_num);
            } else {
                if f != -1 && i == f {
                    assert(e.storage[i] == merged_storage_row(d.storage[i], c));
                    assert(e.storage[i].block_num == d.storage[i].block_num);
                } else {
                    assert(e.storage[i] == d.storage[i]);
                }
                assert(has_block_num(d, d.storage[i].block_num));
                lemma_has_block_num_same(d, e, d.storage[i].block_num);
            }
        }
    }
}

/// Byte-for-byte equality of two byte vectors.
fn bytes_eq(a: &Vec<u8>, b: &Vec<u8>) -> (r: bool)
    ensures
        r == (a@ == b@),
{
    if a.len() != b.len() {
        return false;
    }
    let n = a.len();
    let mut i: usize = 0;
    while i < n
        invariant
            n == a@.len() == b@.len(),
            i <= n,
            forall|j: int| 0 <= j < i ==> a@[j] == b@[j],
        decreases n - i,
    {
        if a[i] != b[i] {
            return false;
        }
        i += 1;
    }
    proof {
        assert(a@ =~= b@);
    }
    true
}

/// Equality of two optional byte vectors, at the level of their views.
fn opt_bytes_eq(a: &Option<Vec<u8>>, b: &Option<Vec<u8>>) -> (r: bool)
    ensures
        r == ({
            let av = match *a {
                Option::Some(ref v) => Option::Some(v@),
                Option::None => Option::None,
            };
            let bv = match *b {
                Option::Some(ref v) => Option::Some(v@),
                Option::None => Option::None,
            };
            av == bv
        }),
{
    match (a, b) {
        (Option::Some(x), Option::Some(y)) => bytes_eq(x, y),
        (Option::None, Option::None) => true,
        _ => false,
    }
}

/// Whether two storage records collide on the table's unique key.
fn conflicts(a: &StorageChange, b: &StorageChange) -> (r: bool)
    ensures
        r == storage_conflict(a@, b@),
{
    bytes_eq(&a.block_hash, &b.block_hash) && bytes_eq(&a.key, &b.key)
        && opt_bytes_eq(&a.value, &b.value)
}

/// The three tables, rows in insertion order with their tables' uniqueness.
pub struct Database {
    blocks: Vec<Block>,
    storage: Vec<StorageChange>,
    metadata: Vec<Metadata>,
}

impl View for Database {
    type V = DatabaseV;

    closed spec fn view(&self) -> DatabaseV {
        DatabaseV {
            blocks: block_views(self.blocks@),
            storage: storage_views(self.storage@),
            metadata: meta_views(self.metadata@),
        }
    }
}

impl Database {
    /// An empty store.
    pub fn new() -> (r: Self)
        ensures
            r@ == (DatabaseV {
                blocks: Seq::empty(),
                storage: Seq::empty(),
                metadata: Seq::empty(),
            }),
    {
        let r = Database { blocks: Vec::new(), storage: Vec::new(), metadata: Vec::new() };
        proof {
            assert(r@ =~= DatabaseV {
                blocks: Seq::empty(),
                storage: Seq::empty(),
                metadata: Seq::empty(),
            });
        }
        r
    }

    /// Inserts a block row unless its hash is present; reports whether a row
    /// was added.
    pub fn insert_block(&mut self, b: &Block) -> (added: bool)
        ensures
            final(self)@ == apply_block(old(self)@, b@),
            added == !has_block_hash(old(self)@, b@.hash),
    {
        let n = self.blocks.len();
        let mut i: usize = 0;
        while i < n
            invariant
                n == self.blocks@.len(),
                i <= n,
                *self == *old(self),
                forall|j: int| 0 <= j < i ==> self@.blocks[j].hash != b@.hash,
            decreases n - i,
        {
            if bytes_eq(&self.blocks[i].hash, &b.hash) {
                proof {
                    assert(self@.blocks[i as int].hash == b@.hash);
                }
                return false;
            }
            i += 1;
        }
        proof {
            assert(!has_block_hash(self@, b@.hash));
        }
        self.blocks.push(b.clone());
        proof {
            assert(self@.blocks =~= old(self)@.blocks.push(b@));
            assert(self@ =~= apply_block(old(self)@, b@));
        }
        true
    }

    /// Inserts a metadata row unless its version is present; reports whether
    /// a row was added.
    pub fn insert_metadata(&mut self, m: &Metadata) -> (added: bool)
        ensures
            final(self)@ == apply_meta(old(self)@, m@),
            added == !has_meta(old(self)@, m@.spec_version),
    {
        let n = self.metadata.len();
        let mut i: usize = 0;
        while i < n
            invariant
                n == self.metadata@.len(),
                i <= n,
                *self == *old(self),
                forall|j: int| 0 <= j < i ==> self@.metadata[j].spec_version != m@.spec_version,
            decreases n - i,
        {
            if self.metadata[i].spec_version == m.spec_version {
                proof {
                    assert(self@.metadata[i as int].spec_version == m@.spec_version);
                }
                return false;
            }
            i += 1;
        }
        proof {
            assert(!has_meta(self@, m@.spec_version));
        }
        self.metadata.push(Metadata { spec_version: m.spec_version, blob: m.blob.clone() });
        proof {
            assert(self@.metadata =~= old(self)@.metadata.push(m@));
            assert(self@ =~= apply_meta(old(self)@, m@));
        }
        true
    }

    /// Upserts a storage row: appends when its unique key is new, otherwise
    /// rewrites `is_full` of the first colliding row.
    pub fn upsert_storage(&mut self, c: &StorageChange)
        ensures
            final(self)@ == apply_storage(old(self)@, c@),
    {
        let n = self.storage.len();
        let mut i: usize = 0;
        while i < n
            invariant
                n == self.storage@.len(),
                i <= n,
                *self == *old(self),
                forall|j: int| 0 <= j < i ==> !storage_conflict(self@.storage[j], c@),
            decreases n - i,
        {
            if conflicts(&self.storage[i], c) {
                proof {
                    lemma_find_storage_first(self@.storage, c@);
                    assert(find_storage(self@.storage, c@) == i as int);
                }
                let mut row = self.storage[i].clone();
                row.is_full = c.is_full;
                proof {
                    assert(row@ == merged_storage_row(old(self)@.storage[i as int], c@));
                }
                self.storage.set(i, row);
                proof {
                    assert(self@.storage =~= old(self)@.storage.update(
                        i as int,
                        merged_storage_row(old(self)@.storage[i as int], c@),
                    ));
                    assert(self@ =~= apply_storage(old(self)@, c@));
                }
                return ;
            }
            i += 1;
        }
        proof {
            lemma_find_storage_first(self@.storage, c@);
            assert(find_storage(self@.storage, c@) == -1);
        }
        self.storage.push(c.clone());
        proof {
            assert(self@.storage =~= old(self)@.storage.push(c@));
            assert(self@ =~= apply_storage(old(self)@, c@));
        }
    }

    /// Inserts a run of blocks in order, each under the single-block policy.
    pub fn insert_batch_blocks(&mut self, bb: &BatchBlock) -> (n: u64)
        ensures
            final(self)@ == replay(old(self)@, block_inserts(bb.inner@)),
            n == bb.inner@.len(),
    {
        let ghost msgs = block_inserts(bb.inner@);
        let len = bb.inner.len();
        let mut i: usize = 0;
        while i < len
            invariant
                len == bb.inner@.len(),
                i <= len,
                msgs == block_inserts(bb.inner@),
                msgs.len() == len,
                self@ == replay(old(self)@, msgs.take(i as int)),
            decreases len - i,
        {
            self.insert_block(&bb.inner[i]);
            proof {
                lemma_replay_snoc(old(self)@, msgs.take(i as int), msgs[i as int]);
                assert(msgs.take(i as int).push(msgs[i as int]) =~= msgs.take(i + 1));
            }
            i += 1;
        }
        proof {
            assert(msgs.take(len as int) =~= msgs);
        }
        i as u64
    }

    /// Upserts a run of storage changes in order.
    pub fn upsert_storage_batch(&mut self, cs: &Vec<StorageChange>) -> (n: u64)
        ensures
            final(self)@ == replay(old(self)@, storage_inserts(cs@)),
            n == cs@.len(),
    {
        let ghost msgs = storage_inserts(cs@);
        let len = cs.len();
        let mut i: usize = 0;
        while i < len
            invariant
                len == cs@.len(),
                i <= len,
                msgs == storage_inserts(cs@),
                msgs.len() == len,
                self@ == replay(old(self)@, msgs.take(i as int)),
            decreases len - i,
        {
            self.upsert_storage(&cs[i]);
            proof {
                lemma_replay_snoc(old(self)@, msgs.take(i as int), msgs[i as int]);
                assert(msgs.take(i as int).push(msgs[i as int]) =~= msgs.take(i + 1));
            }
            i += 1;
        }
        proof {
            assert(msgs.take(len as int) =~= msgs);
        }
        i as u64
    }

    /// The sink's one polymorphic operation: dispatch by record kind.
    pub fn insert(&mut self, item: &InsertItem) -> (n: u64)
        ensures
            final(self)@ == replay(old(self)@, items_of(*item)),
            n == items_of(*item).len(),
    {
        match item {
            InsertItem::Block(b) => {
                self.insert_block(b);
                proof {
                    lemma_replay_snoc(old(self)@, Seq::empty(), InsertV::Block(b@));
                    assert(Seq::<InsertV>::empty().push(InsertV::Block(b@)) =~= items_of(*item));
                }
                1u64
            }
            InsertItem::BatchBlock(bb) => self.insert_batch_blocks(bb),
            InsertItem::Storage(c) => {
                self.upsert_storage(c);
                proof {
                    lemma_replay_snoc(old(self)@, Seq::empty(), InsertV::Storage(c@));
                    assert(Seq::<InsertV>::empty().push(InsertV::Storage(c@)) =~= items_of(*item));
                }
                1u64
            }
            InsertItem::StorageBatch(cs) => self.upsert_storage_batch(cs),
            InsertItem::Metadata(m) => {
                self.insert_metadata(m);
                proof {
                    lemma_replay_snoc(old(self)@, Seq::empty(), InsertV::Meta(m@));
                    assert(Seq::<InsertV>::empty().push(InsertV::Meta(m@)) =~= items_of(*item));
                }
                1u64
            }
        }
    }

    /// The block numbers of `[lo, hi]` that have no block row, ascending —
    /// the generate-series anti-join the deferred-storage worker probes with.
    pub fn missing_in_range(&self, lo: u32, hi: u32) -> (r: Vec<u32>)
        requires
            lo <= hi,
        ensures
            r@ == missing_between(self@, lo as int, hi as int + 1),
    {
        let mut r: Vec<u32> = Vec::new();
        let mut n: u64 = lo as u64;
        proof {
            assert(r@ =~= missing_between(self@, lo as int, lo as int));
        }
        while n <= hi as u64
            invariant
                lo as u64 <= n <= hi as u64 + 1,
                r@ == missing_between(self@, lo as int, n as int),
            decreases hi as u64 + 1 - n,
        {
            if !self.contains_block_num(n as u32) {
                r.push(n as u32);
                proof {
                    assert(r@ =~= missing_between(self@, lo as int, n as int + 1));
                }
            } else {
                proof {
                    assert(r@ =~= missing_between(self@, lo as int, n as int + 1));
                }
            }
            n += 1;
        }
        r
    }

    /// How many block rows the store holds.
    pub fn block_count(&self) -> (n: usize)
        ensures
            n == self@.blocks.len(),
    {
        self.blocks.len()
    }

    /// How many storage rows the store holds.
    pub fn storage_count(&self) -> (n: usize)
        ensures
            n == self@.storage.len(),
    {
        self.storage.len()
    }

    /// How many metadata rows the store holds.
    pub fn metadata_count(&self) -> (n: usize)
        ensures
            n == self@.metadata.len(),
    {
        self.metadata.len()
    }

    /// The block row at an index, in insertion order.
    pub fn block_at(&self, i: usize) -> (r: &Block)
        requires
            i < self@.blocks.len(),
        ensures
            r@ == self@.blocks[i as int],
    {
        &self.blocks[i]
    }

    /// The storage row at an index, in insertion order.
    pub fn storage_at(&self, i: usize) -> (r: &StorageChange)
        requires
            i < self@.storage.len(),
        ensures
            r@ == self@.storage[i as int],
    {
        &self.storage[i]
    }

    /// The metadata row at an index, in insertion order.
    pub fn metadata_at(&self, i: usize) -> (r: &Metadata)
        requires
            i < self@.metadata.len(),
        ensures
            r@ == self@.metadata[i as int],
    {
        &self.metadata[i]
    }

    /// Whether a metadata row with this version exists.
    pub fn contains_meta_version(&self, v: u32) -> (r: bool)
        ensures
            r == has_meta(self@, v),
    {
        let len = self.metadata.len();
        let mut i: usize = 0;
        while i < len
            invariant
                len == self.metadata@.len(),
                i <= len,
                forall|j: int| 0 <= j < i ==> self@.metadata[j].spec_version != v,
            decreases len - i,
        {
            if self.metadata[i].spec_version == v {
                proof {
                    assert(self@.metadata[i as int].spec_version == v);
                }
                return true;
            }
            i += 1;
        }
        false
    }

    /// Whether a block row with this number exists.
    pub fn contains_block_num(&self, n: u32) -> (r: bool)
        ensures
            r == has_block_num(self@, n),
    {
        let len = self.blocks.len();
        let mut i: usize = 0;
        while i < len
            invariant
                len == self.blocks@.len(),
                i <= len,
                forall|j: int| 0 <= j < i ==> self@.blocks[j].block_num != n,
            decreases len - i,
        {
            if self.blocks[i].block_num == n {
                proof {
                    assert(self@.blocks[i as int].block_num == n);
                }
                return true;
            }
            i += 1;
        }
        false
    }
}

} // verus!
