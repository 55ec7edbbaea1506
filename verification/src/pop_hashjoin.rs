//! The hash join.

use crate::chunk::{chunk_rows, column_views, compatible, rows_of, Chunk, Column};
use crate::includes::PartitionId;
use crate::pcode::{code_views, malformed_text, type_error_text, PCode, PInstruction};
use crate::pop::POPKey;
use crate::pop_apply::{all_valued, all_well_formed, codes_well_formed, compute_columns, computed};
use crate::pop_repartition::{row_hash, RepartitionWriteContext};
use crate::row::{datum_eq, DatumView};
use std::collections::HashMap;
use vstd::prelude::*;

verus! {

/// Joins the rows of its left child, the build side, with those of its right
/// child, the probe side, on equal keys.
#[derive(Debug, PartialEq, Eq)]
pub struct HashJoin {
    /// One program per key, over the rows of the left child.
    pub left_keys: Vec<PCode>,
    /// One program per key, over the rows of the right child.
    pub right_keys: Vec<PCode>,
}

impl HashJoin {
    /// A join on the given keys.
    pub fn new(left_keys: Vec<PCode>, right_keys: Vec<PCode>) -> (join: HashJoin)
        ensures
            join.left_keys == left_keys,
            join.right_keys == right_keys,
    {
        HashJoin { left_keys, right_keys }
    }
}

/// The mathematical value of a hash join: the key programs of both sides.
pub struct HashJoinView {
    pub left_keys: Seq<Seq<PInstruction>>,
    pub right_keys: Seq<Seq<PInstruction>>,
}

impl View for HashJoin {
    type V = HashJoinView;

    open spec fn view(&self) -> HashJoinView {
        HashJoinView { left_keys: code_views(self.left_keys@), right_keys: code_views(self.right_keys@) }
    }
}

/// The positions below `n` at which `hashes` holds `h`, in increasing order.
pub open spec fn hash_matches(hashes: Seq<u64>, h: u64, n: nat) -> Seq<usize>
    decreases n,
{
    if n == 0 {
        Seq::empty()
    } else {
        let before = hash_matches(hashes, h, (n - 1) as nat);
        if hashes[n - 1] == h {
            before.push((n - 1) as usize)
        } else {
            before
        }
    }
}

/// The positions below `n` of the build rows whose key is `key`, in
/// increasing order.
pub open spec fn key_matches(keys: Seq<Seq<DatumView>>, key: Seq<DatumView>, n: nat) -> Seq<usize>
    decreases n,
{
    if n == 0 {
        Seq::empty()
    } else {
        let before = key_matches(keys, key, (n - 1) as nat);
        if keys[n - 1] == key {
            before.push((n - 1) as usize)
        } else {
            before
        }
    }
}

/// Of the candidate positions, those of build rows whose key is `key`.
pub open spec fn kept(cands: Seq<usize>, keys: Seq<Seq<DatumView>>, key: Seq<DatumView>) -> Seq<usize>
    decreases cands.len(),
{
    if cands.len() == 0 {
        Seq::empty()
    } else {
        let before = kept(cands.drop_last(), keys, key);
        if keys[cands.last() as int] == key {
            before.push(cands.last())
        } else {
            before
        }
    }
}

/// The pairs of a build row and a probe row with equal keys, for the first
/// `upto` probe rows: probe rows in order, and for each probe row the build
/// rows in order.
pub open spec fn join_pairs(build_keys: Seq<Seq<DatumView>>, probe_keys: Seq<Seq<DatumView>>, upto: nat) -> Seq<
    (usize, usize),
>
    decreases upto,
{
    if upto == 0 {
        Seq::empty()
    } else {
        let matches = key_matches(build_keys, probe_keys[upto - 1], build_keys.len());
        join_pairs(build_keys, probe_keys, (upto - 1) as nat) + Seq::new(
            matches.len(),
            |j: int| (matches[j], (upto - 1) as usize),
        )
    }
}

/// Sequences that agree below `n` have the same matches below `n`.
proof fn lemma_hash_matches_prefix(a: Seq<u64>, b: Seq<u64>, h: u64, n: nat)
    requires
        n <= a.len(),
        n <= b.len(),
        forall|i: int| 0 <= i < n ==> a[i] == b[i],
    ensures
        hash_matches(a, h, n) == hash_matches(b, h, n),
    decreases n,
{
    if n > 0 {
        lemma_hash_matches_prefix(a, b, h, (n - 1) as nat);
    }
}

/// Every match is a position below `n`.
proof fn lemma_hash_matches_bound(hashes: Seq<u64>, h: u64, n: nat)
    requires
        n <= usize::MAX,
    ensures
        forall|j: int| 0 <= j < hash_matches(hashes, h, n).len() ==> (#[trigger] hash_matches(hashes, h, n)[j]) < n,
    decreases n,
{
    if n > 0 {
        lemma_hash_matches_bound(hashes, h, (n - 1) as nat);
        let before = hash_matches(hashes, h, (n - 1) as nat);
        assert forall|j: int| 0 <= j < hash_matches(hashes, h, n).len() implies (#[trigger] hash_matches(
            hashes,
            h,
            n,
        )[j]) < n by {
            if j < before.len() {
                assert(hash_matches(hashes, h, n)[j] == before[j]);
            }
        }
    }
}

/// Looking among the rows with the hash of a key for the rows with the key
/// finds every row with the key.
proof fn lemma_kept_hash_matches(hashes: Seq<u64>, keys: Seq<Seq<DatumView>>, key: Seq<DatumView>, n: nat)
    requires
        n <= hashes.len(),
        n <= keys.len(),
        n <= usize::MAX,
        forall|i: int| 0 <= i < n ==> hashes[i] == row_hash(#[trigger] keys[i]),
    ensures
        kept(hash_matches(hashes, row_hash(key), n), keys, key) == key_matches(keys, key, n),
    decreases n,
{
    if n > 0 {
        lemma_kept_hash_matches(hashes, keys, key, (n - 1) as nat);
        let h = row_hash(key);
        let before = hash_matches(hashes, h, (n - 1) as nat);
        if hashes[n - 1] == h {
            assert(before.push((n - 1) as usize).drop_last() =~= before);
        } else {
            assert(keys[n - 1] != key);
        }
    }
}

/// The per-task state of a hash join: the rows of the build side, their
/// keys, and a table from the hash of a key to the rows that have it.
#[derive(Debug, PartialEq, Eq)]
pub struct HashJoinContext {
    pub pop_key: POPKey,
    pub partition_id: PartitionId,
    /// The build rows, column by column.
    pub build: Vec<Column>,
    /// The keys of the build rows, column by column.
    pub build_keys: Vec<Column>,
    /// The hash of the key of every build row.
    pub hashes: Vec<u64>,
    /// For every hash, the positions of the build rows that have it.
    pub table: HashMap<u64, Vec<usize>>,
    /// Whether a chunk of the build side has been taken in.
    pub started: bool,
}

/// Row `i` of a list of columns.
pub open spec fn row_at(columns: Seq<Column>, i: int) -> Seq<DatumView> {
    Seq::new(columns.len(), |c: int| columns[c]@[i])
}

/// Text of the error for a join without keys.
pub open spec fn no_join_keys_text() -> Seq<char> {
    "HashJoin: no keys"@
}

/// Text of the error for build chunks that do not fit together.
pub open spec fn build_shape_text() -> Seq<char> {
    "HashJoin: chunks of the build side differ in shape"@
}

/// Whether two lists of columns can be put one after the other: they have
/// the same number of columns, each pair fits together, and the rows are
/// not too many together.
pub open spec fn stackable(a: Seq<Seq<DatumView>>, b: Seq<Seq<DatumView>>) -> bool {
    &&& a.len() == b.len()
    &&& forall|c: int| 0 <= c < a.len() ==> compatible(#[trigger] a[c], b[c]) && a[c].len() + b[c].len() <= usize::MAX
}

/// One list of columns after the other; `None` when they do not fit.
fn stack(a: &Vec<Column>, b: &Vec<Column>) -> (res: Option<Vec<Column>>)
    ensures
        res is Some <==> stackable(column_views(a@), column_views(b@)),
        res matches Some(both) ==> both@.len() == a@.len() && forall|c: int|
            0 <= c < a@.len() ==> (#[trigger] both@[c])@ == a@[c]@ + b@[c]@,
{
    if a.len() != b.len() {
        return None;
    }
    let mut both: Vec<Column> = Vec::new();
    let mut c: usize = 0;
    while c < a.len()
        invariant
            c <= a@.len(),
            a@.len() == b@.len(),
            both@.len() == c,
            forall|k: int|
                0 <= k < c ==> compatible(#[trigger] column_views(a@)[k], column_views(b@)[k]) && column_views(
                    a@,
                )[k].len() + column_views(b@)[k].len() <= usize::MAX,
            forall|k: int| 0 <= k < c ==> (#[trigger] both@[k])@ == a@[k]@ + b@[k]@,
        decreases a@.len() - c,
    {
        match a[c].concat(&b[c]) {
            Some(col) => both.push(col),
            None => {
                assert(!(compatible(column_views(a@)[c as int], column_views(b@)[c as int]) && column_views(
                    a@,
                )[c as int].len() + column_views(b@)[c as int].len() <= usize::MAX));
                return None;
            },
        }
        c += 1;
    }
    Some(both)
}

/// Whether row `i` of one list of columns and row `j` of another hold the
/// same values.
fn rows_equal(a: &Vec<Column>, i: usize, b: &Vec<Column>, j: usize) -> (same: bool)
    requires
        forall|c: int| 0 <= c < a@.len() ==> i < (#[trigger] a@[c])@.len(),
        forall|c: int| 0 <= c < b@.len() ==> j < (#[trigger] b@[c])@.len(),
    ensures
        same == (row_at(a@, i as int) == row_at(b@, j as int)),
{
    if a.len() != b.len() {
        assert(row_at(a@, i as int).len() != row_at(b@, j as int).len());
        return false;
    }
    let mut c: usize = 0;
    while c < a.len()
        invariant
            c <= a@.len(),
            a@.len() == b@.len(),
            forall|k: int| 0 <= k < a@.len() ==> i < (#[trigger] a@[k])@.len(),
            forall|k: int| 0 <= k < b@.len() ==> j < (#[trigger] b@[k])@.len(),
            forall|k: int| 0 <= k < c ==> (#[trigger] a@[k])@[i as int] == b@[k]@[j as int],
        decreases a@.len() - c,
    {
        let x = a[c].get(i);
        let y = b[c].get(j);
        if !datum_eq(&x, &y) {
            assert(row_at(a@, i as int)[c as int] != row_at(b@, j as int)[c as int]);
            return false;
        }
        c += 1;
    }
    assert(row_at(a@, i as int) =~= row_at(b@, j as int));
    true
}

impl HashJoinContext {
    /// Number of build rows.
    pub open spec fn size(&self) -> nat {
        self.hashes@.len()
    }

    /// The keys of the build rows.
    pub open spec fn key_rows(&self) -> Seq<Seq<DatumView>> {
        Seq::new(self.size(), |i: int| row_at(self.build_keys@, i))
    }

    /// Every column has one value per build row; the hashes are those of
    /// the keys; and the table leads from every hash to the rows that have
    /// it, in the order in which they were taken in.
    pub open spec fn wf(&self) -> bool {
        &&& !self.started ==> self.size() == 0
        &&& self.size() > 0 ==> self.build_keys@.len() > 0
        &&& forall|c: int| 0 <= c < self.build@.len() ==> (#[trigger] self.build@[c])@.len() == self.size()
        &&& forall|c: int| 0 <= c < self.build_keys@.len() ==> (#[trigger] self.build_keys@[c])@.len() == self.size()
        &&& forall|i: int| 0 <= i < self.size() ==> #[trigger] self.hashes@[i] == row_hash(row_at(self.build_keys@, i))
        &&& forall|h: u64|
            self.table@.contains_key(h) ==> (#[trigger] self.table@[h])@ == hash_matches(self.hashes@, h, self.size())
        &&& forall|h: u64| !self.table@.contains_key(h) ==> (#[trigger] hash_matches(self.hashes@, h, self.size())).len() == 0
    }

    /// The state of a task that has taken in nothing.
    pub fn new(pop_key: POPKey, partition_id: PartitionId) -> (ctx: Self)
        ensures
            ctx.wf(),
            ctx.pop_key == pop_key,
            ctx.partition_id == partition_id,
            ctx.size() == 0,
            !ctx.started,
            ctx.build@.len() == 0,
            ctx.build_keys@.len() == 0,
    {
        HashJoinContext {
            pop_key,
            partition_id,
            build: Vec::new(),
            build_keys: Vec::new(),
            hashes: Vec::new(),
            table: HashMap::new(),
            started: false,
        }
    }
}

/// The values of the key programs on the rows of a batch, column by column.
pub open spec fn key_columns(keys: Seq<Seq<PInstruction>>, columns: Seq<Seq<DatumView>>) -> Seq<Seq<DatumView>> {
    Seq::new(keys.len(), |k: int| computed(keys[k], columns))
}

/// Why the key programs cannot be evaluated on a batch, if they cannot:
/// there are none, one is malformed, or one has no value on some row.
pub open spec fn keys_fault(keys: Seq<Seq<PInstruction>>, columns: Seq<Seq<DatumView>>) -> Option<Seq<char>> {
    if keys.len() == 0 {
        Some(no_join_keys_text())
    } else if !all_well_formed(keys) {
        Some(malformed_text())
    } else if !all_valued(keys, columns) {
        Some(type_error_text())
    } else {
        None
    }
}

/// Why a chunk cannot be taken into the build side, if it cannot: the keys
/// cannot be evaluated, or the chunk does not fit the chunks taken in
/// before.
pub open spec fn build_fault(join: &HashJoin, ctx: &HashJoinContext, columns: Seq<Seq<DatumView>>) -> Option<Seq<char>> {
    let keys = code_views(join.left_keys@);
    if keys_fault(keys, columns) is Some {
        keys_fault(keys, columns)
    } else if ctx.started && !(stackable(column_views(ctx.build@), columns) && stackable(
        column_views(ctx.build_keys@),
        key_columns(keys, columns),
    )) {
        Some(build_shape_text())
    } else {
        None
    }
}

/// One batch after the other, column by column; a batch that comes first
/// stands alone.
pub open spec fn stacked(first: bool, a: Seq<Seq<DatumView>>, b: Seq<Seq<DatumView>>) -> Seq<Seq<DatumView>> {
    if first {
        b
    } else {
        Seq::new(a.len(), |c: int| a[c] + b[c])
    }
}

/// The values of the key programs on every row of `chunk`, one column per
/// key.
fn eval_keys(keys: &Vec<PCode>, chunk: &Chunk) -> (res: Result<Vec<Column>, String>)
    requires
        chunk.wf(),
    ensures
        match res {
            Ok(cols) => keys_fault(code_views(keys@), chunk@) is None && column_views(cols@) == key_columns(
                code_views(keys@),
                chunk@,
            ),
            Err(e) => keys_fault(code_views(keys@), chunk@) == Some(e@),
        },
{
    if keys.len() == 0 {
        return Err(String::from_str("HashJoin: no keys"));
    }
    if !codes_well_formed(keys) {
        return Err(String::from_str("PCode: malformed program"));
    }
    match compute_columns(keys, chunk) {
        Some(cols) => {
            assert(column_views(cols@) =~= key_columns(code_views(keys@), chunk@));
            Ok(cols)
        },
        None => Err(String::from_str("PCode: runtime type error")),
    }
}

impl HashJoinContext {
    /// Takes the rows of `chunk` into the build side.
    fn take_in(&mut self, join: &HashJoin, chunk: &Chunk) -> (res: Result<(), String>)
        requires
            chunk.wf(),
            old(self).wf(),
        ensures
            final(self).wf(),
            final(self).pop_key == old(self).pop_key,
            final(self).partition_id == old(self).partition_id,
            match res {
                Ok(_) => {
                    &&& build_fault(join, old(self), chunk@) is None
                    &&& final(self).started
                    &&& final(self).size() == old(self).size() + chunk.spec_len()
                    &&& column_views(final(self).build@) == stacked(
                        !old(self).started,
                        column_views(old(self).build@),
                        chunk@,
                    )
                    &&& column_views(final(self).build_keys@) == stacked(
                        !old(self).started,
                        column_views(old(self).build_keys@),
                        key_columns(code_views(join.left_keys@), chunk@),
                    )
                },
                Err(e) => build_fault(join, old(self), chunk@) == Some(e@) && *final(self) == *old(self),
            },
    {
        let n = chunk.len();
        let key_cols = eval_keys(&join.left_keys, chunk)?;
        let ghost kv = key_columns(code_views(join.left_keys@), chunk@);
        let (build, build_keys) = if self.started {
            let b = match stack(&self.build, &chunk.arrays) {
                Some(b) => b,
                None => {
                    return Err(String::from_str("HashJoin: chunks of the build side differ in shape"));
                },
            };
            let k = match stack(&self.build_keys, &key_cols) {
                Some(k) => k,
                None => {
                    return Err(String::from_str("HashJoin: chunks of the build side differ in shape"));
                },
            };
            (b, k)
        } else {
            (chunk.clone().arrays, key_cols)
        };
        proof {
            assert(column_views(build@) =~= stacked(!self.started, column_views(self.build@), chunk@));
            assert(column_views(build_keys@) =~= stacked(!self.started, column_views(self.build_keys@), kv));
            assert(kv[0].len() == n);
            if self.started {
                assert(column_views(self.build_keys@)[0].len() + kv[0].len() <= usize::MAX);
                assert(self.build_keys@[0]@.len() == self.size());
            }
            assert forall|c: int| 0 <= c < build_keys@.len() implies (#[trigger] build_keys@[c])@.len() == self.size() + n by {
                assert(column_views(build_keys@)[c] == build_keys@[c]@);
                assert(kv[c].len() == n);
                if self.started {
                    assert(self.build_keys@[c]@.len() == self.size());
                }
            }
            assert forall|c: int| 0 <= c < build@.len() implies (#[trigger] build@[c])@.len() == self.size() + n by {
                assert(column_views(build@)[c] == build@[c]@);
                assert(chunk@[c].len() == rows_of(chunk@));
                if self.started {
                    assert(self.build@[c]@.len() == self.size());
                }
            }
        }
        // The hashes of the keys of the new rows.
        let hashes = hash_rows(&build_keys, self.hashes.len(), n);
        let ghost size0 = self.size();
        let ghost old_keys = self.build_keys@;
        let ghost old_hashes = self.hashes@;
        self.build = build;
        self.build_keys = build_keys;
        self.started = true;
        let ghost new_build = self.build@;
        let ghost new_keys = self.build_keys@;
        proof {
            assert forall|j: int| 0 <= j < size0 implies #[trigger] self.hashes@[j] == row_hash(
                row_at(self.build_keys@, j),
            ) by {
                assert(old_hashes[j] == row_hash(row_at(old_keys, j)));
                assert(row_at(new_keys, j) =~= row_at(old_keys, j)) by {
                    assert forall|c: int| 0 <= c < new_keys.len() implies new_keys[c]@[j] == old_keys[c]@[j] by {
                        assert(column_views(new_keys)[c] == new_keys[c]@);
                        assert(column_views(old_keys)[c] == old_keys[c]@);
                        assert(old_keys[c]@.len() == size0);
                    }
                }
            }
        }
        let mut i: usize = 0;
        while i < n
            invariant
                i <= n,
                hashes@.len() == n,
                self.started,
                self.build@ == new_build,
                self.build_keys@ == new_keys,
                forall|c: int| 0 <= c < new_build.len() ==> (#[trigger] new_build[c])@.len() == size0 + n,
                forall|c: int| 0 <= c < new_keys.len() ==> (#[trigger] new_keys[c])@.len() == size0 + n,
                self.pop_key == old(self).pop_key,
                self.partition_id == old(self).partition_id,
                self.hashes@.len() == size0 + i,
                size0 + n <= usize::MAX,
                forall|k: int|
                    0 <= k < n ==> #[trigger] hashes@[k] == row_hash(row_at(self.build_keys@, size0 + k)),
                forall|j: int| 0 <= j < size0 + i ==> #[trigger] self.hashes@[j] == row_hash(row_at(self.build_keys@, j)),
                forall|h: u64|
                    self.table@.contains_key(h) ==> (#[trigger] self.table@[h])@ == hash_matches(
                        self.hashes@,
                        h,
                        self.hashes@.len(),
                    ),
                forall|h: u64|
                    !self.table@.contains_key(h) ==> (#[trigger] hash_matches(self.hashes@, h, self.hashes@.len())).len()
                        == 0,
            decreases n - i,
        {
            let h = hashes[i];
            let position = self.hashes.len();
            let mut list: Vec<usize> = match self.table.get(&h) {
                Some(l) => {
                    let c = l.clone();
                    assert(c@ =~= l@);
                    c
                },
                None => Vec::new(),
            };
            let ghost before = self.hashes@;
            assert(list@ =~= hash_matches(before, h, before.len()));
            list.push(position);
            self.table.insert(h, list);
            self.hashes.push(h);
            proof {
                let after = self.hashes@;
                assert forall|g: u64| true implies hash_matches(after, g, before.len()) == hash_matches(
                    before,
                    g,
                    before.len(),
                ) by {
                    lemma_hash_matches_prefix(after, before, g, before.len());
                }
                assert forall|g: u64| self.table@.contains_key(g) implies (#[trigger] self.table@[g])@ == hash_matches(
                    after,
                    g,
                    after.len(),
                ) by {
                    assert(hash_matches(after, g, before.len()) == hash_matches(before, g, before.len()));
                }
                assert forall|g: u64| !self.table@.contains_key(g) implies (#[trigger] hash_matches(
                    after,
                    g,
                    after.len(),
                )).len() == 0 by {
                    assert(hash_matches(after, g, before.len()) == hash_matches(before, g, before.len()));
                }
            }
            i += 1;
        }
        Ok(())
    }
}

/// The same columns.
fn key_cols_of(columns: &Vec<Column>) -> (copy: Vec<Column>)
    ensures
        column_views(copy@) == column_views(columns@),
{
    let mut copy: Vec<Column> = Vec::new();
    let mut c: usize = 0;
    while c < columns.len()
        invariant
            c <= columns@.len(),
            copy@.len() == c,
            forall|k: int| 0 <= k < c ==> (#[trigger] copy@[k])@ == columns@[k]@,
        decreases columns@.len() - c,
    {
        copy.push(columns[c].clone());
        c += 1;
    }
    assert(column_views(copy@) =~= column_views(columns@));
    copy
}

/// The hashes of rows `from` to `from + n` of a list of key columns.
fn hash_rows(keys: &Vec<Column>, from: usize, n: usize) -> (hashes: Vec<u64>)
    requires
        keys@.len() > 0,
        from + n <= usize::MAX,
        forall|c: int| 0 <= c < keys@.len() ==> (#[trigger] keys@[c])@.len() == from + n,
    ensures
        hashes@.len() == n,
        forall|k: int| 0 <= k < n ==> #[trigger] hashes@[k] == row_hash(row_at(keys@, from + k)),
{
    let all = Chunk { arrays: key_cols_of(keys) };
    assert(all@ =~= column_views(keys@));
    assert(all.wf()) by {
        assert forall|c: int| 0 <= c < all@.len() implies (#[trigger] all@[c]).len() == rows_of(all@) by {
            assert(all@[c] == keys@[c]@);
            assert(all@[0] == keys@[0]@);
        }
    }
    let every = RepartitionWriteContext::hash_chunk(&all);
    assert(rows_of(all@) == from + n) by {
        assert(all@[0] == keys@[0]@);
    }
    let mut hashes: Vec<u64> = Vec::new();
    let mut k: usize = 0;
    while k < n
        invariant
            k <= n,
            from + n <= usize::MAX,
            every@.len() == from + n,
            hashes@.len() == k,
            forall|j: int| 0 <= j < k ==> #[trigger] hashes@[j] == every@[from + j],
        decreases n - k,
    {
        hashes.push(every[from + k]);
        k += 1;
    }
    assert forall|k: int| 0 <= k < n implies #[trigger] hashes@[k] == row_hash(row_at(keys@, from + k)) by {
        assert(every@[from + k] == row_hash(all.row(from + k)));
        assert(all.row(from + k) =~= row_at(keys@, from + k));
    }
    hashes
}

/// The pairs that two lists of equal length give.
pub open spec fn zip_pairs(lefts: Seq<usize>, rights: Seq<usize>) -> Seq<(usize, usize)> {
    Seq::new(lefts.len(), |j: int| (lefts[j], rights[j]))
}

/// The rows of a join: for every pair, the build row followed by the probe
/// row, column by column.
pub open spec fn joined_columns(
    build: Seq<Seq<DatumView>>,
    probe: Seq<Seq<DatumView>>,
    pairs: Seq<(usize, usize)>,
) -> Seq<Seq<DatumView>> {
    Seq::new(
        build.len() + probe.len(),
        |c: int|
            Seq::new(
                pairs.len(),
                |j: int|
                    if c < build.len() {
                        build[c][pairs[j].0 as int]
                    } else {
                        probe[c - build.len()][pairs[j].1 as int]
                    },
            ),
    )
}

impl HashJoinContext {
    /// Joins the rows of `chunk` with the build side.
    fn look_up(&self, join: &HashJoin, chunk: &Chunk) -> (res: Result<Chunk, String>)
        requires
            self.wf(),
            chunk.wf(),
        ensures
            match res {
                Ok(out) => {
                    let keys = code_views(join.right_keys@);
                    let pairs = join_pairs(self.key_rows(), chunk_rows(key_columns(keys, chunk@)), chunk.spec_len());
                    &&& keys_fault(keys, chunk@) is None
                    &&& out.wf()
                    &&& out@ == joined_columns(column_views(self.build@), chunk@, pairs)
                },
                Err(e) => keys_fault(code_views(join.right_keys@), chunk@) == Some(e@),
            },
    {
        let n = chunk.len();
        let key_cols = eval_keys(&join.right_keys, chunk)?;
        let ghost keys = code_views(join.right_keys@);
        let ghost kv = key_columns(keys, chunk@);
        let ghost bkeys = self.key_rows();
        let ghost pkeys = chunk_rows(kv);
        proof {
            assert(kv[0].len() == n);
            assert forall|c: int| 0 <= c < key_cols@.len() implies (#[trigger] key_cols@[c])@.len() == 0 + n by {
                assert(column_views(key_cols@)[c] == key_cols@[c]@);
                assert(kv[c].len() == n);
            }
        }
        let hashes = hash_rows(&key_cols, 0, n);
        let size = self.hashes.len();
        let mut lefts: Vec<usize> = Vec::new();
        let mut rights: Vec<usize> = Vec::new();
        let mut i: usize = 0;
        assert(zip_pairs(lefts@, rights@) =~= join_pairs(bkeys, pkeys, 0));
        while i < n
            invariant
                i <= n,
                self.wf(),
                size == self.size(),
                bkeys == self.key_rows(),
                pkeys == chunk_rows(kv),
                pkeys.len() == n,
                column_views(key_cols@) == kv,
                forall|c: int| 0 <= c < key_cols@.len() ==> (#[trigger] key_cols@[c])@.len() == n,
                hashes@.len() == n,
                forall|k: int| 0 <= k < n ==> #[trigger] hashes@[k] == row_hash(row_at(key_cols@, 0 + k)),
                lefts@.len() == rights@.len(),
                forall|j: int| 0 <= j < lefts@.len() ==> #[trigger] lefts@[j] < size,
                forall|j: int| 0 <= j < rights@.len() ==> #[trigger] rights@[j] < n,
                zip_pairs(lefts@, rights@) == join_pairs(bkeys, pkeys, i as nat),
            decreases n - i,
        {
            let h = hashes[i];
            let ghost key = pkeys[i as int];
            let ghost before = zip_pairs(lefts@, rights@);
            proof {
                assert(key =~= row_at(key_cols@, i as int)) by {
                    assert forall|c: int| 0 <= c < key_cols@.len() implies key[c] == row_at(key_cols@, i as int)[c] by {
                        assert(kv[c] == key_cols@[c]@);
                    }
                }
                assert(h == row_hash(key)) by {
                    assert(hashes@[i as int] == row_hash(row_at(key_cols@, 0 + i)));
                }
                lemma_kept_hash_matches(self.hashes@, bkeys, key, size as nat);
                lemma_hash_matches_bound(self.hashes@, h, size as nat);
            }
            match self.table.get(&h) {
                Some(list) => {
                    let ghost cands = hash_matches(self.hashes@, h, size as nat);
                    assert(list@ == cands);
                    let mut p: usize = 0;
                    assert(kept(list@.take(0), bkeys, key) =~= Seq::<usize>::empty());
                    assert(zip_pairs(lefts@, rights@) =~= before + Seq::new(
                        0nat,
                        |j: int| (kept(list@.take(0), bkeys, key)[j], i),
                    ));
                    while p < list.len()
                        invariant
                            p <= list@.len(),
                            i < n,
                            self.wf(),
                            size == self.size(),
                            bkeys == self.key_rows(),
                            key == row_at(key_cols@, i as int),
                            forall|c: int| 0 <= c < key_cols@.len() ==> (#[trigger] key_cols@[c])@.len() == n,
                            forall|j: int| 0 <= j < list@.len() ==> (#[trigger] list@[j]) < size,
                            lefts@.len() == rights@.len(),
                            forall|j: int| 0 <= j < lefts@.len() ==> #[trigger] lefts@[j] < size,
                            forall|j: int| 0 <= j < rights@.len() ==> #[trigger] rights@[j] < n,
                            zip_pairs(lefts@, rights@) == before + Seq::new(
                                kept(list@.take(p as int), bkeys, key).len(),
                                |j: int| (kept(list@.take(p as int), bkeys, key)[j], i),
                            ),
                        decreases list@.len() - p,
                    {
                        let idx = list[p];
                        proof {
                            assert(list@.take(p + 1).drop_last() =~= list@.take(p as int));
                            assert(list@.take(p + 1).last() == idx);
                            assert(bkeys[idx as int] == row_at(self.build_keys@, idx as int));
                        }
                        let ghost so_far = kept(list@.take(p as int), bkeys, key);
                        if rows_equal(&self.build_keys, idx, &key_cols, i) {
                            let ghost old_pairs = zip_pairs(lefts@, rights@);
                            lefts.push(idx);
                            rights.push(i);
                            proof {
                                let now = kept(list@.take(p + 1), bkeys, key);
                                assert(now == so_far.push(idx));
                                assert(zip_pairs(lefts@, rights@) =~= old_pairs.push((idx, i)));
                                assert(old_pairs.push((idx, i)) =~= before + Seq::new(
                                    now.len(),
                                    |j: int| (now[j], i),
                                ));
                            }
                        }
                        p += 1;
                    }
                    proof {
                        assert(list@.take(p as int) =~= list@);
                    }
                },
                None => {
                    proof {
                        assert(hash_matches(self.hashes@, h, size as nat).len() == 0);
                        assert(hash_matches(self.hashes@, h, size as nat) =~= Seq::<usize>::empty());
                        assert(key_matches(bkeys, key, size as nat) =~= Seq::<usize>::empty());
                        assert(zip_pairs(lefts@, rights@) =~= before + Seq::new(
                            0nat,
                            |j: int| (key_matches(bkeys, key, size as nat)[j], i),
                        ));
                    }
                },
            }
            proof {
                let matches = key_matches(bkeys, pkeys[i as int], bkeys.len());
                assert(zip_pairs(lefts@, rights@) == before + Seq::new(matches.len(), |j: int| (matches[j], i)));
            }
            i += 1;
        }
        let ghost pairs = zip_pairs(lefts@, rights@);
        let mut arrays: Vec<Column> = Vec::new();
        let mut c: usize = 0;
        while c < self.build.len()
            invariant
                c <= self.build@.len(),
                self.wf(),
                size == self.size(),
                forall|j: int| 0 <= j < lefts@.len() ==> #[trigger] lefts@[j] < size,
                arrays@.len() == c,
                forall|k: int|
                    0 <= k < c ==> (#[trigger] arrays@[k])@.len() == lefts@.len() && forall|j: int|
                        0 <= j < lefts@.len() ==> #[trigger] arrays@[k]@[j] == self.build@[k]@[lefts@[j] as int],
            decreases self.build@.len() - c,
        {
            assert(self.build@[c as int]@.len() == size);
            arrays.push(self.build[c].take(&lefts));
            c += 1;
        }
        let nl = self.build.len();
        let mut c: usize = 0;
        while c < chunk.arrays.len()
            invariant
                c <= chunk.arrays@.len(),
                chunk.wf(),
                n == chunk.spec_len(),
                nl == self.build@.len(),
                lefts@.len() == rights@.len(),
                forall|j: int| 0 <= j < rights@.len() ==> #[trigger] rights@[j] < n,
                arrays@.len() == nl + c,
                forall|k: int|
                    0 <= k < nl ==> (#[trigger] arrays@[k])@.len() == lefts@.len() && forall|j: int|
                        0 <= j < lefts@.len() ==> #[trigger] arrays@[k]@[j] == self.build@[k]@[lefts@[j] as int],
                forall|k: int|
                    0 <= k < c ==> (#[trigger] arrays@[nl + k])@.len() == rights@.len() && forall|j: int|
                        0 <= j < rights@.len() ==> #[trigger] arrays@[nl + k]@[j] == chunk@[k][rights@[j] as int],
            decreases chunk.arrays@.len() - c,
        {
            assert(chunk@[c as int].len() == rows_of(chunk@));
            let ghost before = arrays@;
            arrays.push(chunk.arrays[c].take(&rights));
            proof {
                assert forall|k: int| 0 <= k < nl implies (#[trigger] arrays@[k])@.len() == lefts@.len() && forall|j: int|
                    0 <= j < lefts@.len() ==> #[trigger] arrays@[k]@[j] == self.build@[k]@[lefts@[j] as int] by {
                    assert(arrays@[k] == before[k]);
                }
                assert forall|k: int| 0 <= k < c + 1 implies (#[trigger] arrays@[nl + k])@.len() == rights@.len()
                    && forall|j: int|
                    0 <= j < rights@.len() ==> #[trigger] arrays@[nl + k]@[j] == chunk@[k][rights@[j] as int] by {
                    if k < c {
                        assert(arrays@[nl + k] == before[nl + k]);
                    }
                }
            }
            c += 1;
        }
        let out = Chunk { arrays };
        proof {
            let want = joined_columns(column_views(self.build@), chunk@, pairs);
            assert(out@.len() == want.len());
            assert forall|c: int| 0 <= c < out@.len() implies out@[c] =~= want[c] by {
                if c >= nl {
                    let k = c - nl;
                    assert(arrays@[nl + k]@.len() == rights@.len());
                }
            }
            assert(out@ =~= want);
            assert forall|c: int| 0 <= c < out@.len() implies (#[trigger] out@[c]).len() == rows_of(out@) by {
                assert(out@[c].len() == pairs.len());
                assert(out@[0].len() == pairs.len());
            }
        }
        Ok(out)
    }
}

/// What a join knows of its build side: whether it has taken in a chunk,
/// and the rows and keys taken in, column by column.
pub struct BuildState {
    pub started: bool,
    pub columns: Seq<Seq<DatumView>>,
    pub keys: Seq<Seq<DatumView>>,
}

/// The build side before any chunk.
pub open spec fn build_start() -> BuildState {
    BuildState { started: false, columns: Seq::empty(), keys: Seq::empty() }
}

/// The build side after one more chunk, or why the chunk cannot be taken
/// in.
pub open spec fn build_step(keys: Seq<Seq<PInstruction>>, st: BuildState, columns: Seq<Seq<DatumView>>) -> Result<
    BuildState,
    Seq<char>,
> {
    if keys_fault(keys, columns) is Some {
        Err(keys_fault(keys, columns).unwrap())
    } else if st.started && !(stackable(st.columns, columns) && stackable(st.keys, key_columns(keys, columns))) {
        Err(build_shape_text())
    } else {
        Ok(
            BuildState {
                started: true,
                columns: stacked(!st.started, st.columns, columns),
                keys: stacked(!st.started, st.keys, key_columns(keys, columns)),
            },
        )
    }
}

/// The rows that a chunk of the probe side gives against a build side, or
/// why the chunk cannot be probed.
pub open spec fn probe_step(keys: Seq<Seq<PInstruction>>, st: BuildState, columns: Seq<Seq<DatumView>>) -> Result<
    Seq<Seq<DatumView>>,
    Seq<char>,
> {
    if keys_fault(keys, columns) is Some {
        Err(keys_fault(keys, columns).unwrap())
    } else {
        Ok(
            joined_columns(
                st.columns,
                columns,
                join_pairs(chunk_rows(st.keys), chunk_rows(key_columns(keys, columns)), rows_of(columns)),
            ),
        )
    }
}

impl HashJoinContext {
    /// What the context knows of its build side.
    pub open spec fn state(&self) -> BuildState {
        BuildState {
            started: self.started,
            columns: column_views(self.build@),
            keys: column_views(self.build_keys@),
        }
    }

    /// The keys of the build rows are the rows of the key columns.
    pub proof fn lemma_key_rows(&self)
        requires
            self.wf(),
        ensures
            self.key_rows() == chunk_rows(self.state().keys),
    {
        let keys = self.state().keys;
        if self.build_keys@.len() == 0 {
            assert(self.key_rows() =~= chunk_rows(keys));
        } else {
            assert(keys[0] == self.build_keys@[0]@);
            assert(rows_of(keys) == self.size());
            assert forall|i: int| 0 <= i < self.size() implies self.key_rows()[i] =~= chunk_rows(keys)[i] by {}
            assert(self.key_rows() =~= chunk_rows(keys));
        }
    }

    /// Takes the rows of `chunk` into the build side: evaluates the keys of
    /// the left input on every row and enters every row in the table under
    /// the hash of its key. On a fault nothing is taken in.
    pub fn build(&mut self, join: &HashJoin, chunk: &Chunk) -> (res: Result<(), String>)
        requires
            chunk.wf(),
            old(self).wf(),
        ensures
            final(self).wf(),
            final(self).pop_key == old(self).pop_key,
            final(self).partition_id == old(self).partition_id,
            match res {
                Ok(_) => build_step(code_views(join.left_keys@), old(self).state(), chunk@) == Ok::<BuildState, Seq<char>>(
                    final(self).state(),
                ),
                Err(e) => build_step(code_views(join.left_keys@), old(self).state(), chunk@) == Err::<
                    BuildState,
                    Seq<char>,
                >(e@) && *final(self) == *old(self),
            },
    {
        self.take_in(join, chunk)
    }

    /// Joins the rows of `chunk`, a chunk of the probe side, with the build
    /// side: evaluates the keys of the right input on every row, looks in
    /// the table for the build rows with the hash of the key, and among
    /// those keeps the ones with the same key. The result has, for every
    /// probe row in order and every build row with its key in order, the
    /// build row followed by the probe row.
    pub fn probe(&self, join: &HashJoin, chunk: &Chunk) -> (res: Result<Chunk, String>)
        requires
            self.wf(),
            chunk.wf(),
        ensures
            match res {
                Ok(out) => out.wf() && probe_step(code_views(join.right_keys@), self.state(), chunk@) == Ok::<
                    Seq<Seq<DatumView>>,
                    Seq<char>,
                >(out@),
                Err(e) => probe_step(code_views(join.right_keys@), self.state(), chunk@) == Err::<
                    Seq<Seq<DatumView>>,
                    Seq<char>,
                >(e@),
            },
    {
        proof {
            self.lemma_key_rows();
        }
        self.look_up(join, chunk)
    }
}

} // verus!
