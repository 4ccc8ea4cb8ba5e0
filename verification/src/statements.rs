//! The sink's SQL: parameterized insert statements for the three tables,
//! singly and batched. A batched statement is assembled by appending
//! placeholder tuples between a fixed prefix and suffix; bound parameters
//! per statement never pass the cap a target database imposes — when a tuple
//! would not fit, the statement under construction is flushed and a new one
//! begins. Placeholders are written `$1`, `$2`, … as the driver expects.

use vstd::prelude::*;
use vstd::string::StringExecFns;
use crate::types::BatchBlock;
use crate::types::Block;
use crate::types::Metadata;
use crate::types::StorageChange;

verus! {

/// The most bound parameters one statement may carry.
pub const PARAM_CAP: usize = 65535;

/// One value bound to a statement parameter.
pub enum SqlValue {
    Bytes(Vec<u8>),
    OptBytes(Option<Vec<u8>>),
    U32(u32),
    Bool(bool),
}

/// Mathematical view of a bound value.
pub enum SqlValueV {
    Bytes(Seq<u8>),
    OptBytes(Option<Seq<u8>>),
    U32(u32),
    Bool(bool),
}

impl View for SqlValue {
    type V = SqlValueV;

    open spec fn view(&self) -> SqlValueV {
        match self {
            SqlValue::Bytes(b) => SqlValueV::Bytes(b@),
            SqlValue::OptBytes(o) => SqlValueV::OptBytes(
                match o {
                    Option::Some(v) => Option::Some(v@),
                    Option::None => Option::None,
                },
            ),
            SqlValue::U32(n) => SqlValueV::U32(*n),
            SqlValue::Bool(b) => SqlValueV::Bool(*b),
        }
    }
}

/// The views of a run of bound values, in order.
pub open spec fn value_views(s: Seq<SqlValue>) -> Seq<SqlValueV> {
    s.map_values(|v: SqlValue| v@)
}

/// One round-trip to the store: a statement text and its bound parameters.
pub struct Statement {
    pub sql: String,
    pub args: Vec<SqlValue>,
}

/// The decimal digits of a number, most significant first.
pub open spec fn spec_dec(n: nat) -> Seq<char>
    decreases n,
{
    if n < 10 {
        seq![spec_digit(n)]
    } else {
        spec_dec(n / 10).push(spec_digit(n % 10))
    }
}

/// The character of one decimal digit.
pub open spec fn spec_digit(d: nat) -> char {
    if d == 0 {
        '0'
    } else if d == 1 {
        '1'
    } else if d == 2 {
        '2'
    } else if d == 3 {
        '3'
    } else if d == 4 {
        '4'
    } else if d == 5 {
        '5'
    } else if d == 6 {
        '6'
    } else if d == 7 {
        '7'
    } else if d == 8 {
        '8'
    } else {
        '9'
    }
}

/// Appends one decimal digit.
fn append_digit(s: &mut String, d: u32)
    requires
        d < 10,
    ensures
        final(s)@ == old(s)@.push(spec_digit(d as nat)),
{
    if d == 0 {
        proof {
            reveal_strlit("0");
        }
        s.append("0");
    } else if d == 1 {
        proof {
            reveal_strlit("1");
        }
        s.append("1");
    } else if d == 2 {
        proof {
            reveal_strlit("2");
        }
        s.append("2");
    } else if d == 3 {
        proof {
            reveal_strlit("3");
        }
        s.append("3");
    } else if d == 4 {
        proof {
            reveal_strlit("4");
        }
        s.append("4");
    } else if d == 5 {
        proof {
            reveal_strlit("5");
        }
        s.append("5");
    } else if d == 6 {
        proof {
            reveal_strlit("6");
        }
        s.append("6");
    } else if d == 7 {
        proof {
            reveal_strlit("7");
        }
        s.append("7");
    } else if d == 8 {
        proof {
            reveal_strlit("8");
        }
        s.append("8");
    } else {
        proof {
            reveal_strlit("9");
        }
        s.append("9");
    }
    proof {
        assert(s@ =~= old(s)@.push(spec_digit(d as nat)));
    }
}

/// Appends a number in decimal.
fn append_u32_dec(s: &mut String, n: u32)
    ensures
        final(s)@ == old(s)@ + spec_dec(n as nat),
    decreases n,
{
    if n >= 10 {
        append_u32_dec(s, n / 10);
    }
    append_digit(s, n % 10);
    proof {
        assert(s@ =~= old(s)@ + spec_dec(n as nat));
    }
}

/// The bound parameters of a run of statements, in order.
pub open spec fn flat_args(sts: Seq<Statement>) -> Seq<SqlValueV>
    decreases sts.len(),
{
    if sts.len() == 0 {
        Seq::empty()
    } else {
        flat_args(sts.drop_last()) + value_views(sts.last().args@)
    }
}

/// The `$k` placeholder text.
pub open spec fn placeholder(k: nat) -> Seq<char> {
    seq!['$'] + spec_dec(k)
}

/// A multi-row insert statement under assembly, with flushed predecessors.
pub struct Batch {
    prefix: String,
    suffix: String,
    sql: String,
    args: Vec<SqlValue>,
    done: Vec<Statement>,
}

impl Batch {
    /// Every flushed statement, and the one under assembly, respects the
    /// parameter cap.
    pub closed spec fn wf(&self) -> bool {
        &&& forall|i: int| 0 <= i < self.done@.len() ==> #[trigger] self.done@[i].args@.len()
            <= PARAM_CAP
        &&& self.args@.len() <= PARAM_CAP
    }

    /// The parameters bound so far, flushed and current, in order.
    pub closed spec fn all_args(&self) -> Seq<SqlValueV> {
        flat_args(self.done@) + value_views(self.args@)
    }

    /// How many parameters the statement under assembly holds.
    pub closed spec fn cur_len(&self) -> nat {
        self.args@.len()
    }

    /// The text of the statement under assembly.
    pub closed spec fn cur_sql(&self) -> Seq<char> {
        self.sql@
    }

    /// The parameters of the statement under assembly.
    pub closed spec fn cur_args(&self) -> Seq<SqlValueV> {
        value_views(self.args@)
    }

    /// The statements flushed so far, in order.
    pub closed spec fn done(&self) -> Seq<Statement> {
        self.done@
    }

    /// The fixed text every statement opens with.
    pub closed spec fn prefix_text(&self) -> Seq<char> {
        self.prefix@
    }

    /// The fixed text every statement closes with.
    pub closed spec fn suffix_text(&self) -> Seq<char> {
        self.suffix@
    }

    /// An empty batch between the given prefix and suffix.
    pub fn new(prefix: &str, suffix: &str) -> (r: Self)
        ensures
            r.wf(),
            r.all_args() == Seq::<SqlValueV>::empty(),
            r.cur_len() == 0,
            r.cur_args() == Seq::<SqlValueV>::empty(),
            r.done() == Seq::<Statement>::empty(),
            r.prefix_text() == prefix@,
            r.suffix_text() == suffix@,
            r.cur_sql() == prefix@,
    {
        let r = Batch {
            prefix: String::from_str(prefix),
            suffix: String::from_str(suffix),
            sql: String::from_str(prefix),
            args: Vec::new(),
            done: Vec::new(),
        };
        proof {
            assert(r.all_args() =~= Seq::<SqlValueV>::empty());
            assert(r.cur_args() =~= Seq::<SqlValueV>::empty());
        }
        r
    }

    /// How many parameters the statement under assembly holds.
    pub fn current_num_arguments(&self) -> (n: usize)
        ensures
            n == self.cur_len(),
    {
        self.args.len()
    }

    /// Makes room for a tuple of `n` parameters: when it would not fit, the
    /// statement under assembly is flushed — suffix appended, its text and
    /// parameters fixed — and a new one begins at the prefix. No bound
    /// parameter is lost either way.
    pub fn reserve(&mut self, n: usize)
        requires
            old(self).wf(),
            n <= PARAM_CAP,
        ensures
            final(self).wf(),
            final(self).all_args() == old(self).all_args(),
            final(self).cur_len() + n <= PARAM_CAP,
            final(self).prefix_text() == old(self).prefix_text(),
            final(self).suffix_text() == old(self).suffix_text(),
            old(self).cur_len() + n <= PARAM_CAP ==> {
                &&& final(self).done() == old(self).done()
                &&& final(self).cur_sql() == old(self).cur_sql()
                &&& final(self).cur_args() == old(self).cur_args()
            },
            old(self).cur_len() + n > PARAM_CAP ==> {
                &&& final(self).done().len() == old(self).done().len() + 1
                &&& final(self).done().drop_last() == old(self).done()
                &&& final(self).done().last().sql@ == old(self).cur_sql() + old(
                    self,
                ).suffix_text()
                &&& value_views(final(self).done().last().args@) == old(self).cur_args()
                &&& final(self).cur_sql() == old(self).prefix_text()
                &&& final(self).cur_args() == Seq::<SqlValueV>::empty()
            },
    {
        if self.args.len() + n > PARAM_CAP {
            self.flush();
        }
    }

    /// Flushes the statement under assembly, suffix appended, and starts a
    /// new one at the prefix.
    fn flush(&mut self)
        requires
            old(self).wf(),
        ensures
            final(self).wf(),
            final(self).all_args() == old(self).all_args(),
            final(self).prefix_text() == old(self).prefix_text(),
            final(self).suffix_text() == old(self).suffix_text(),
            final(self).done().len() == old(self).done().len() + 1,
            final(self).done().drop_last() == old(self).done(),
            final(self).done().last().sql@ == old(self).cur_sql() + old(self).suffix_text(),
            value_views(final(self).done().last().args@) == old(self).cur_args(),
            final(self).cur_sql() == old(self).prefix_text(),
            final(self).cur_len() == 0,
            final(self).cur_args() == Seq::<SqlValueV>::empty(),
    {
        let mut sql = String::from_str(self.prefix.as_str());
        let mut args: Vec<SqlValue> = Vec::new();
        core::mem::swap(&mut sql, &mut self.sql);
        core::mem::swap(&mut args, &mut self.args);
        sql.append(self.suffix.as_str());
        let st = Statement { sql, args };
        let ghost prev = self.done@;
        self.done.push(st);
        proof {
            assert(self.done@.drop_last() =~= prev);
            assert(self.all_args() =~= old(self).all_args());
            assert(self.cur_args() =~= Seq::<SqlValueV>::empty());
        }
    }

    /// Appends raw statement text (a comma or a parenthesis between tuples)
    /// to the statement under assembly.
    pub fn append(&mut self, text: &str)
        requires
            old(self).wf(),
        ensures
            final(self).wf(),
            final(self).all_args() == old(self).all_args(),
            final(self).cur_len() == old(self).cur_len(),
            final(self).cur_args() == old(self).cur_args(),
            final(self).cur_sql() == old(self).cur_sql() + text@,
            final(self).done() == old(self).done(),
            final(self).prefix_text() == old(self).prefix_text(),
            final(self).suffix_text() == old(self).suffix_text(),
    {
        self.sql.append(text);
    }

    /// Binds one parameter: the value is recorded and its `$k` placeholder —
    /// `k` counting from 1 within the statement under assembly — is appended
    /// to the statement text.
    pub fn bind(&mut self, v: SqlValue)
        requires
            old(self).wf(),
            old(self).cur_len() < PARAM_CAP,
        ensures
            final(self).wf(),
            final(self).all_args() == old(self).all_args().push(v@),
            final(self).cur_len() == old(self).cur_len() + 1,
            final(self).cur_args() == old(self).cur_args().push(v@),
            final(self).cur_sql() == old(self).cur_sql() + placeholder(
                old(self).cur_len() + 1,
            ),
            final(self).done() == old(self).done(),
            final(self).prefix_text() == old(self).prefix_text(),
            final(self).suffix_text() == old(self).suffix_text(),
    {
        proof {
            reveal_strlit("$");
        }
        self.args.push(v);
        let k = self.args.len();
        self.sql.append("$");
        append_u32_dec(&mut self.sql, k as u32);
        proof {
            assert(value_views(self.args@) =~= value_views(old(self).args@).push(v@));
            assert(self.all_args() =~= old(self).all_args().push(v@));
            assert(self.cur_sql() =~= old(self).cur_sql() + placeholder(old(self).cur_len() + 1));
        }
    }

    /// Closes the batch: whatever is under assembly is flushed — suffix
    /// appended, text and parameters fixed — and the finished statements
    /// come out. None of them carries more parameters than the cap, and
    /// together they carry every bound parameter, in order.
    pub fn finish(self) -> (r: Vec<Statement>)
        requires
            self.wf(),
        ensures
            forall|i: int| 0 <= i < r@.len() ==> #[trigger] r@[i].args@.len() <= PARAM_CAP,
            flat_args(r@) == self.all_args(),
            self.cur_len() == 0 ==> r@ == self.done(),
            self.cur_len() > 0 ==> {
                &&& r@.len() == self.done().len() + 1
                &&& r@.drop_last() == self.done()
                &&& r@.last().sql@ == self.cur_sql() + self.suffix_text()
                &&& value_views(r@.last().args@) == self.cur_args()
            },
    {
        let mut this = self;
        if this.args.len() > 0 {
            this.flush();
        }
        proof {
            assert(flat_args(this.done@) =~= this.all_args());
            assert(this.all_args() =~= self.all_args());
        }
        this.done
    }
}

/// The parameters of one block row, in column order.
pub open spec fn block_args(b: crate::types::BlockV) -> Seq<SqlValueV> {
    seq![
        SqlValueV::Bytes(b.parent_hash),
        SqlValueV::Bytes(b.hash),
        SqlValueV::U32(b.block_num),
        SqlValueV::Bytes(b.state_root),
        SqlValueV::Bytes(b.extrinsics_root),
        SqlValueV::Bytes(b.digest),
        SqlValueV::Bytes(b.ext),
        SqlValueV::U32(b.spec_version),
    ]
}

/// The parameters of one storage row, in column order.
pub open spec fn storage_args(c: crate::types::StorageChangeV) -> Seq<SqlValueV> {
    seq![
        SqlValueV::U32(c.block_num),
        SqlValueV::Bytes(c.block_hash),
        SqlValueV::Bool(c.is_full),
        SqlValueV::Bytes(c.key),
        SqlValueV::OptBytes(c.value),
    ]
}

/// The parameters of one metadata row, in column order.
pub open spec fn metadata_args(m: crate::types::MetadataV) -> Seq<SqlValueV> {
    seq![SqlValueV::U32(m.spec_version), SqlValueV::Bytes(m.blob)]
}

/// Clones an optional byte vector.
fn clone_opt_bytes(o: &Option<Vec<u8>>) -> (r: Option<Vec<u8>>)
    ensures
        (match r {
            Option::Some(v) => Option::Some(v@),
            Option::None => Option::<Seq<u8>>::None,
        }) == (match *o {
            Option::Some(ref v) => Option::Some(v@),
            Option::None => Option::<Seq<u8>>::None,
        }),
{
    match o {
        Option::Some(v) => Option::Some(v.clone()),
        Option::None => Option::None,
    }
}

/// The single-row insert for `blocks`, ON CONFLICT DO NOTHING.
pub fn block_insert_statement(b: &Block) -> (r: Statement)
    ensures
        r.sql@ == "INSERT INTO blocks (parent_hash, hash, block_num, state_root, extrinsics_root, digest, ext, spec) VALUES ($1, $2, $3, $4, $5, $6, $7, $8) ON CONFLICT DO NOTHING"@,
        value_views(r.args@) == block_args(b@),
{
    let sql = String::from_str(
        "INSERT INTO blocks (parent_hash, hash, block_num, state_root, extrinsics_root, digest, ext, spec) VALUES ($1, $2, $3, $4, $5, $6, $7, $8) ON CONFLICT DO NOTHING",
    );
    let mut args: Vec<SqlValue> = Vec::new();
    args.push(SqlValue::Bytes(b.parent_hash.clone()));
    args.push(SqlValue::Bytes(b.hash.clone()));
    args.push(SqlValue::U32(b.block_num));
    args.push(SqlValue::Bytes(b.state_root.clone()));
    args.push(SqlValue::Bytes(b.extrinsics_root.clone()));
    args.push(SqlValue::Bytes(b.digest.clone()));
    args.push(SqlValue::Bytes(b.ext.clone()));
    args.push(SqlValue::U32(b.spec_version));
    proof {
        assert(value_views(args@) =~= block_args(b@));
    }
    Statement { sql, args }
}

/// The single-row upsert for `storage` on its unique key. The placeholders
/// are `$1` through `$5`, as the driver's positional syntax requires.
pub fn storage_insert_statement(c: &StorageChange) -> (r: Statement)
    ensures
        r.sql@ == "INSERT INTO storage (block_num, hash, is_full, key, storage) VALUES ($1, $2, $3, $4, $5) ON CONFLICT (hash, key, md5(storage)) DO UPDATE SET hash = EXCLUDED.hash, key = EXCLUDED.key, storage = EXCLUDED.storage, is_full = EXCLUDED.is_full"@,
        value_views(r.args@) == storage_args(c@),
{
    let sql = String::from_str(
        "INSERT INTO storage (block_num, hash, is_full, key, storage) VALUES ($1, $2, $3, $4, $5) ON CONFLICT (hash, key, md5(storage)) DO UPDATE SET hash = EXCLUDED.hash, key = EXCLUDED.key, storage = EXCLUDED.storage, is_full = EXCLUDED.is_full",
    );
    let mut args: Vec<SqlValue> = Vec::new();
    args.push(SqlValue::U32(c.block_num));
    args.push(SqlValue::Bytes(c.block_hash.clone()));
    args.push(SqlValue::Bool(c.is_full));
    args.push(SqlValue::Bytes(c.key.clone()));
    args.push(SqlValue::OptBytes(clone_opt_bytes(&c.value)));
    proof {
        assert(value_views(args@) =~= storage_args(c@));
    }
    Statement { sql, args }
}

/// The single-row insert for `metadata`, ON CONFLICT DO NOTHING.
pub fn metadata_insert_statement(m: &Metadata) -> (r: Statement)
    ensures
        r.sql@ == "INSERT INTO metadata (version, meta) VALUES ($1, $2) ON CONFLICT DO NOTHING"@,
        value_views(r.args@) == metadata_args(m@),
{
    let sql = String::from_str(
        "INSERT INTO metadata (version, meta) VALUES ($1, $2) ON CONFLICT DO NOTHING",
    );
    let mut args: Vec<SqlValue> = Vec::new();
    args.push(SqlValue::U32(m.spec_version));
    args.push(SqlValue::Bytes(m.blob.clone()));
    proof {
        assert(value_views(args@) =~= metadata_args(m@));
    }
    Statement { sql, args }
}

/// The parameters of a run of block rows, in order.
pub open spec fn flat_block_args(s: Seq<Block>) -> Seq<SqlValueV>
    decreases s.len(),
{
    if s.len() == 0 {
        Seq::empty()
    } else {
        flat_block_args(s.drop_last()) + block_args(s.last()@)
    }
}

/// The parameters of a run of storage rows, in order.
pub open spec fn flat_storage_args(s: Seq<StorageChange>) -> Seq<SqlValueV>
    decreases s.len(),
{
    if s.len() == 0 {
        Seq::empty()
    } else {
        flat_storage_args(s.drop_last()) + storage_args(s.last()@)
    }
}

/// The placeholder tuple of one block row: eight parameters numbered from
/// `start + 1`.
pub open spec fn block_tuple_sql(start: nat) -> Seq<char> {
    seq!['('] + placeholder(start + 1) + seq![','] + placeholder(start + 2) + seq![',']
        + placeholder(start + 3) + seq![','] + placeholder(start + 4) + seq![','] + placeholder(
        start + 5,
    ) + seq![','] + placeholder(start + 6) + seq![','] + placeholder(start + 7) + seq![',']
        + placeholder(start + 8) + seq![')']
}

/// The comma-separated placeholder tuples of `rows` block rows, numbered
/// from `$1`.
pub open spec fn block_rows_sql(rows: nat) -> Seq<char>
    decreases rows,
{
    if rows == 0 {
        Seq::empty()
    } else if rows == 1 {
        block_tuple_sql(0)
    } else {
        block_rows_sql((rows - 1) as nat) + seq![','] + block_tuple_sql(((rows - 1) * 8) as nat)
    }
}

/// The placeholder tuple of one storage row: five parameters numbered from
/// `start + 1`.
pub open spec fn storage_tuple_sql(start: nat) -> Seq<char> {
    seq!['('] + placeholder(start + 1) + seq![','] + placeholder(start + 2) + seq![',']
        + placeholder(start + 3) + seq![','] + placeholder(start + 4) + seq![','] + placeholder(
        start + 5,
    ) + seq![')']
}

/// The comma-separated placeholder tuples of `rows` storage rows, numbered
/// from `$1`.
pub open spec fn storage_rows_sql(rows: nat) -> Seq<char>
    decreases rows,
{
    if rows == 0 {
        Seq::empty()
    } else if rows == 1 {
        storage_tuple_sql(0)
    } else {
        storage_rows_sql((rows - 1) as nat) + seq![','] + storage_tuple_sql(
            ((rows - 1) * 5) as nat,
        )
    }
}

/// How many block rows one statement carries when as full as the cap allows.
pub open spec fn block_rows_per_statement() -> int {
    PARAM_CAP as int / 8
}

/// How many storage rows one statement carries when as full as the cap
/// allows.
pub open spec fn storage_rows_per_statement() -> int {
    PARAM_CAP as int / 5
}
/// Appends one block row to the batch: a separating comma when a tuple is
/// already open, then the eight-placeholder tuple and its bound values.
#[verifier::rlimit(100)]
fn push_block_row(batch: &mut Batch, b: &Block)
    requires
        old(batch).wf(),
        old(batch).cur_len() + 8 <= PARAM_CAP,
    ensures
        final(batch).wf(),
        final(batch).cur_len() == old(batch).cur_len() + 8,
        final(batch).all_args() == old(batch).all_args() + block_args(b@),
        final(batch).cur_args() == old(batch).cur_args() + block_args(b@),
        final(batch).done() == old(batch).done(),
        final(batch).prefix_text() == old(batch).prefix_text(),
        final(batch).suffix_text() == old(batch).suffix_text(),
        final(batch).cur_sql() == old(batch).cur_sql() + (if old(batch).cur_len() > 0 {
            seq![',']
        } else {
            Seq::<char>::empty()
        }) + block_tuple_sql(old(batch).cur_len()),
{
    proof {
        reveal_strlit(",");
        reveal_strlit("(");
        reveal_strlit(")");
    }
    let ghost start = batch.cur_len();
    if batch.current_num_arguments() > 0 {
        batch.append(",");
    }
    let ghost base = batch.cur_sql();
    batch.append("(");
    batch.bind(SqlValue::Bytes(b.parent_hash.clone()));
    batch.append(",");
    batch.bind(SqlValue::Bytes(b.hash.clone()));
    batch.append(",");
    batch.bind(SqlValue::U32(b.block_num));
    batch.append(",");
    batch.bind(SqlValue::Bytes(b.state_root.clone()));
    batch.append(",");
    batch.bind(SqlValue::Bytes(b.extrinsics_root.clone()));
    batch.append(",");
    batch.bind(SqlValue::Bytes(b.digest.clone()));
    batch.append(",");
    batch.bind(SqlValue::Bytes(b.ext.clone()));
    batch.append(",");
    batch.bind(SqlValue::U32(b.spec_version));
    batch.append(")");
    proof {
        assert(batch.cur_sql() =~= base + block_tuple_sql(start));
        assert(batch.cur_sql() =~= old(batch).cur_sql() + (if old(batch).cur_len() > 0 {
            seq![',']
        } else {
            Seq::<char>::empty()
        }) + block_tuple_sql(start));
        assert(batch.all_args() =~= old(batch).all_args() + block_args(b@));
        assert(batch.cur_args() =~= old(batch).cur_args() + block_args(b@));
    }
}

/// Appends one storage row to the batch: a separating comma when a tuple is
/// already open, then the five-placeholder tuple and its bound values.
#[verifier::rlimit(100)]
fn push_storage_row(batch: &mut Batch, c: &StorageChange)
    requires
        old(batch).wf(),
        old(batch).cur_len() + 5 <= PARAM_CAP,
    ensures
        final(batch).wf(),
        final(batch).cur_len() == old(batch).cur_len() + 5,
        final(batch).all_args() == old(batch).all_args() + storage_args(c@),
        final(batch).cur_args() == old(batch).cur_args() + storage_args(c@),
        final(batch).done() == old(batch).done(),
        final(batch).prefix_text() == old(batch).prefix_text(),
        final(batch).suffix_text() == old(batch).suffix_text(),
        final(batch).cur_sql() == old(batch).cur_sql() + (if old(batch).cur_len() > 0 {
            seq![',']
        } else {
            Seq::<char>::empty()
        }) + storage_tuple_sql(old(batch).cur_len()),
{
    proof {
        reveal_strlit(",");
        reveal_strlit("(");
        reveal_strlit(")");
    }
    let ghost start = batch.cur_len();
    if batch.current_num_arguments() > 0 {
        batch.append(",");
    }
    let ghost base = batch.cur_sql();
    batch.append("(");
    batch.bind(SqlValue::U32(c.block_num));
    batch.append(",");
    batch.bind(SqlValue::Bytes(c.block_hash.clone()));
    batch.append(",");
    batch.bind(SqlValue::Bool(c.is_full));
    batch.append(",");
    batch.bind(SqlValue::Bytes(c.key.clone()));
    batch.append(",");
    batch.bind(SqlValue::OptBytes(clone_opt_bytes(&c.value)));
    batch.append(")");
    proof {
        assert(batch.cur_sql() =~= base + storage_tuple_sql(start));
        assert(batch.cur_sql() =~= old(batch).cur_sql() + (if old(batch).cur_len() > 0 {
            seq![',']
        } else {
            Seq::<char>::empty()
        }) + storage_tuple_sql(start));
        assert(batch.all_args() =~= old(batch).all_args() + storage_args(c@));
        assert(batch.cur_args() =~= old(batch).cur_args() + storage_args(c@));
    }
}

/// The batched insert for `blocks`: eight parameters a row, one round-trip
/// per flushed batch. Each emitted statement is the fixed prefix, the
/// comma-separated `$k` tuples of its rows, and the fixed suffix; every
/// statement but the last is as full as the cap allows, and together they
/// bind exactly the rows' values in order.
#[verifier::rlimit(100)]
pub fn batch_blocks_statements(bb: &BatchBlock) -> (r: Vec<Statement>)
    ensures
        forall|i: int| 0 <= i < r@.len() ==> #[trigger] r@[i].args@.len() <= PARAM_CAP,
        flat_args(r@) == flat_block_args(bb.inner@),
        r@.len() == if bb.inner@.len() == 0 {
            0int
        } else {
            (bb.inner@.len() - 1) / block_rows_per_statement() + 1
        },
        forall|i: int| 0 <= i < r@.len() ==> ({
            let rows = if i + 1 < r@.len() {
                block_rows_per_statement()
            } else {
                bb.inner@.len() - i * block_rows_per_statement()
            };
            &&& (#[trigger] r@[i]).sql@
                == "INSERT INTO blocks (parent_hash, hash, block_num, state_root, extrinsics_root, digest, ext, spec) VALUES "@
                + block_rows_sql(rows as nat) + " ON CONFLICT DO NOTHING"@
            &&& r@[i].args@.len() == 8 * rows
        }),
{
    let mut batch = Batch::new(
        "INSERT INTO blocks (parent_hash, hash, block_num, state_root, extrinsics_root, digest, ext, spec) VALUES ",
        " ON CONFLICT DO NOTHING",
    );
    let ghost pfx =
        "INSERT INTO blocks (parent_hash, hash, block_num, state_root, extrinsics_root, digest, ext, spec) VALUES "@;
    let ghost sfx = " ON CONFLICT DO NOTHING"@;
    let ghost rper = block_rows_per_statement();
    let ghost mut crows: int = 0;
    let n = bb.inner.len();
    let mut i: usize = 0;
    while i < n
        invariant
            n == bb.inner@.len(),
            i <= n,
            batch.wf(),
            batch.all_args() == flat_block_args(bb.inner@.take(i as int)),
            batch.prefix_text() == pfx,
            batch.suffix_text() == sfx,
            rper == block_rows_per_statement(),
            rper == 8191,
            batch.cur_len() == 8 * crows,
            0 <= crows <= rper,
            i == batch.done().len() * rper + crows,
            i > 0 ==> crows > 0,
            batch.cur_sql() == pfx + block_rows_sql(crows as nat),
            forall|j: int| 0 <= j < batch.done().len() ==> (#[trigger] batch.done()[j]).sql@
                == pfx + block_rows_sql(rper as nat) + sfx && batch.done()[j].args@.len() == 8
                * rper,
        decreases n - i,
    {
        let b = &bb.inner[i];
        let ghost pre = batch;
        batch.reserve(8);
        proof {
            if pre.cur_len() + 8 > PARAM_CAP {
                assert(crows == rper);
                crows = 0;
                assert forall|j: int| 0 <= j < batch.done().len() implies ((
                #[trigger] batch.done()[j]).sql@ == pfx + block_rows_sql(rper as nat) + sfx
                    && batch.done()[j].args@.len() == 8 * rper) by {
                    if j < batch.done().len() - 1 {
                        assert(batch.done()[j] == batch.done().drop_last()[j]);
                    } else {
                        assert(batch.done()[j] == batch.done().last());
                        assert(value_views(batch.done().last().args@).len()
                            == batch.done().last().args@.len());
                    }
                }
            }
        }
        push_block_row(&mut batch, b);
        proof {
            assert(bb.inner@.take(i + 1).drop_last() =~= bb.inner@.take(i as int));
            assert(bb.inner@.take(i + 1).last() == bb.inner@[i as int]);
            assert(batch.all_args() =~= flat_block_args(bb.inner@.take(i + 1)));
            if crows == 0 {
                assert(batch.cur_sql() =~= pfx + block_rows_sql((crows + 1) as nat));
            } else {
                assert(block_rows_sql((crows + 1) as nat) == block_rows_sql(crows as nat)
                    + seq![','] + block_tuple_sql((crows * 8) as nat));
                assert(batch.cur_sql() =~= pfx + block_rows_sql((crows + 1) as nat));
            }
            crows = crows + 1;
        }
        i += 1;
    }
    proof {
        assert(bb.inner@.take(n as int) =~= bb.inner@);
    }
    let ghost endb = batch;
    let r = batch.finish();
    proof {
        let k = endb.done().len() as int;
        if n == 0 {
            assert(r@ == endb.done());
            assert(r@.len() == 0);
        } else {
            assert(1 <= crows <= rper);
            vstd::arithmetic::div_mod::lemma_fundamental_div_mod_converse(
                n as int - 1,
                rper,
                k,
                crows - 1,
            );
            assert(r@.len() == k + 1);
            assert forall|i2: int| 0 <= i2 < r@.len() implies ({
                let rows = if i2 + 1 < r@.len() {
                    block_rows_per_statement()
                } else {
                    bb.inner@.len() - i2 * block_rows_per_statement()
                };
                &&& (#[trigger] r@[i2]).sql@ == pfx + block_rows_sql(rows as nat) + sfx
                &&& r@[i2].args@.len() == 8 * rows
            }) by {
                if i2 < k {
                    assert(r@[i2] == r@.drop_last()[i2]);
                    assert(r@[i2] == endb.done()[i2]);
                } else {
                    assert(r@[i2] == r@.last());
                    assert(value_views(r@.last().args@).len() == r@.last().args@.len());
                    assert(bb.inner@.len() - i2 * rper == crows);
                }
            }
        }
    }
    r
}

/// The batched upsert for `storage`: five parameters a row, one round-trip
/// per flushed batch. Each emitted statement is the fixed prefix, the
/// comma-separated `$k` tuples of its rows, and the fixed suffix; every
/// statement but the last is as full as the cap allows, and together they
/// bind exactly the rows' values in order.
#[verifier::rlimit(100)]
pub fn batch_storage_statements(cs: &Vec<StorageChange>) -> (r: Vec<Statement>)
    ensures
        forall|i: int| 0 <= i < r@.len() ==> #[trigger] r@[i].args@.len() <= PARAM_CAP,
        flat_args(r@) == flat_storage_args(cs@),
        r@.len() == if cs@.len() == 0 {
            0int
        } else {
            (cs@.len() - 1) / storage_rows_per_statement() + 1
        },
        forall|i: int| 0 <= i < r@.len() ==> ({
            let rows = if i + 1 < r@.len() {
                storage_rows_per_statement()
            } else {
                cs@.len() - i * storage_rows_per_statement()
            };
            &&& (#[trigger] r@[i]).sql@
                == "INSERT INTO storage (block_num, hash, is_full, key, storage) VALUES "@
                + storage_rows_sql(rows as nat)
                + " ON CONFLICT (hash, key, md5(storage)) DO UPDATE SET hash = EXCLUDED.hash, key = EXCLUDED.key, storage = EXCLUDED.storage, is_full = EXCLUDED.is_full"@
            &&& r@[i].args@.len() == 5 * rows
        }),
{
    let mut batch = Batch::new(
        "INSERT INTO storage (block_num, hash, is_full, key, storage) VALUES ",
        " ON CONFLICT (hash, key, md5(storage)) DO UPDATE SET hash = EXCLUDED.hash, key = EXCLUDED.key, storage = EXCLUDED.storage, is_full = EXCLUDED.is_full",
    );
    let ghost pfx = "INSERT INTO storage (block_num, hash, is_full, key, storage) VALUES "@;
    let ghost sfx =
        " ON CONFLICT (hash, key, md5(storage)) DO UPDATE SET hash = EXCLUDED.hash, key = EXCLUDED.key, storage = EXCLUDED.storage, is_full = EXCLUDED.is_full"@;
    let ghost rper = storage_rows_per_statement();
    let ghost mut crows: int = 0;
    let n = cs.len();
    let mut i: usize = 0;
    while i < n
        invariant
            n == cs@.len(),
            i <= n,
            batch.wf(),
            batch.all_args() == flat_storage_args(cs@.take(i as int)),
            batch.prefix_text() == pfx,
            batch.suffix_text() == sfx,
            rper == storage_rows_per_statement(),
            rper == 13107,
            batch.cur_len() == 5 * crows,
            0 <= crows <= rper,
            i == batch.done().len() * rper + crows,
            i > 0 ==> crows > 0,
            batch.cur_sql() == pfx + storage_rows_sql(crows as nat),
            forall|j: int| 0 <= j < batch.done().len() ==> (#[trigger] batch.done()[j]).sql@
                == pfx + storage_rows_sql(rper as nat) + sfx && batch.done()[j].args@.len() == 5
                * rper,
        decreases n - i,
    {
        let c = &cs[i];
        let ghost pre = batch;
        batch.reserve(5);
        proof {
            if pre.cur_len() + 5 > PARAM_CAP {
                assert(crows == rper);
                crows = 0;
                assert forall|j: int| 0 <= j < batch.done().len() implies ((
                #[trigger] batch.done()[j]).sql@ == pfx + storage_rows_sql(rper as nat) + sfx
                    && batch.done()[j].args@.len() == 5 * rper) by {
                    if j < batch.done().len() - 1 {
                        assert(batch.done()[j] == batch.done().drop_last()[j]);
                    } else {
                        assert(batch.done()[j] == batch.done().last());
                        assert(value_views(batch.done().last().args@).len()
                            == batch.done().last().args@.len());
                    }
                }
            }
        }
        push_storage_row(&mut batch, c);
        proof {
            assert(cs@.take(i + 1).drop_last() =~= cs@.take(i as int));
            assert(cs@.take(i + 1).last() == cs@[i as int]);
            assert(batch.all_args() =~= flat_storage_args(cs@.take(i + 1)));
            if crows == 0 {
                assert(batch.cur_sql() =~= pfx + storage_rows_sql((crows + 1) as nat));
            } else {
                assert(storage_rows_sql((crows + 1) as nat) == storage_rows_sql(crows as nat)
                    + seq![','] + storage_tuple_sql((crows * 5) as nat));
                assert(batch.cur_sql() =~= pfx + storage_rows_sql((crows + 1) as nat));
            }
            crows = crows + 1;
        }
        i += 1;
    }
    proof {
        assert(cs@.take(n as int) =~= cs@);
    }
    let ghost endb = batch;
    let r = batch.finish();
    proof {
        let k = endb.done().len() as int;
        if n == 0 {
            assert(r@ == endb.done());
            assert(r@.len() == 0);
        } else {
            assert(1 <= crows <= rper);
            vstd::arithmetic::div_mod::lemma_fundamental_div_mod_converse(
                n as int - 1,
                rper,
                k,
                crows - 1,
            );
            assert(r@.len() == k + 1);
            assert forall|i2: int| 0 <= i2 < r@.len() implies ({
                let rows = if i2 + 1 < r@.len() {
                    storage_rows_per_statement()
                } else {
                    cs@.len() - i2 * storage_rows_per_statement()
                };
                &&& (#[trigger] r@[i2]).sql@ == pfx + storage_rows_sql(rows as nat) + sfx
                &&& r@[i2].args@.len() == 5 * rows
            }) by {
                if i2 < k {
                    assert(r@[i2] == r@.drop_last()[i2]);
                    assert(r@[i2] == endb.done()[i2]);
                } else {
                    assert(r@[i2] == r@.last());
                    assert(value_views(r@.last().args@).len() == r@.last().args@.len());
                    assert(cs@.len() - i2 * rper == crows);
                }
            }
        }
    }
    r
}

} // verus!
