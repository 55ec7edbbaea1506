//! The repartition exchange: the operator that spreads the rows of a
//! producer stage over the partitions of its consumer, and the operator
//! that reads them back.

use crate::chunk::{chunk_rows, datum_hash, filter_chunk, row_of, rows_of, Chunk, Column, Schema};
use crate::includes::PartitionId;
use crate::kernels::{count_true, eq_scalar, filtered, lemma_filtered_len, rem_scalar};
use crate::pcode::{code_views, malformed_text, run_row, type_error_text, well_formed, PCode, PInstruction};
use crate::pop::{POPKey, POPProps, POPPropsView};
use crate::pop_apply::{all_valued, all_well_formed, applied, apply_fault, computed};
use crate::row::{DataType, DatumView};
use crate::stage::StageLink;
use crate::text::{contains_text, decimal, occurs_in, usize_to_string};
use vstd::prelude::*;
use vstd::seq_lib::to_multiset_build;

verus! {

/// The write side of a shuffle.
#[derive(Debug, PartialEq, Eq)]
pub struct RepartitionWrite {
    pub repart_key: Vec<PCode>,
    pub schema: Schema,
    pub cpartitions: PartitionId,
    pub stage_link: StageLink,
}

impl RepartitionWrite {
    /// A shuffle side with the given properties.
    pub fn new(repart_key: Vec<PCode>, schema: Schema, stage_link: StageLink, cpartitions: PartitionId) -> (rpw: Self)
        ensures
            rpw.repart_key == repart_key,
            rpw.schema == schema,
            rpw.stage_link == stage_link,
            rpw.cpartitions == cpartitions,
    {
        RepartitionWrite { repart_key, schema, stage_link, cpartitions }
    }

    /// The programs whose values decide the partition of a row.
    pub fn repart_key(&self) -> (key: &Vec<PCode>)
        ensures
            *key == self.repart_key,
    {
        &self.repart_key
    }

    /// The schema of the rows written.
    pub fn schema(&self) -> (schema: &Schema)
        ensures
            *schema == self.schema,
    {
        &self.schema
    }

    /// Number of partitions of the consumer.
    pub fn cpartitions(&self) -> (n: &PartitionId)
        ensures
            *n == self.cpartitions,
    {
        &self.cpartitions
    }

    /// The shuffle that the rows are written for.
    pub fn stage_link(&self) -> (link: &StageLink)
        ensures
            *link == self.stage_link,
    {
        &self.stage_link
    }
}

/// The read side of a shuffle.
#[derive(Debug, PartialEq, Eq)]
pub struct RepartitionRead {
    pub schema: Schema,
    pub stage_link: StageLink,
}

impl RepartitionRead {
    /// A shuffle side with the given properties.
    pub fn new(schema: Schema, stage_link: StageLink) -> (rpr: Self)
        ensures
            rpr.schema == schema,
            rpr.stage_link == stage_link,
    {
        RepartitionRead { schema, stage_link }
    }

    /// The schema of the rows read.
    pub fn schema(&self) -> (schema: &Schema)
        ensures
            *schema == self.schema,
    {
        &self.schema
    }

    /// The shuffle that the rows are read from.
    pub fn stage_link(&self) -> (link: &StageLink)
        ensures
            *link == self.stage_link,
    {
        &self.stage_link
    }
}

/// The mathematical value of the write side of a shuffle.
pub struct RepartitionWriteView {
    pub repart_key: Seq<Seq<PInstruction>>,
    pub schema: Seq<(Seq<char>, DataType)>,
    pub cpartitions: PartitionId,
    pub stage_link: StageLink,
}

impl View for RepartitionWrite {
    type V = RepartitionWriteView;

    open spec fn view(&self) -> RepartitionWriteView {
        RepartitionWriteView {
            repart_key: code_views(self.repart_key@),
            schema: self.schema@,
            cpartitions: self.cpartitions,
            stage_link: self.stage_link,
        }
    }
}

/// The mathematical value of the read side of a shuffle.
pub struct RepartitionReadView {
    pub schema: Seq<(Seq<char>, DataType)>,
    pub stage_link: StageLink,
}

impl View for RepartitionRead {
    type V = RepartitionReadView;

    open spec fn view(&self) -> RepartitionReadView {
        RepartitionReadView { schema: self.schema@, stage_link: self.stage_link }
    }
}

/// The hash of a row of keys after one more key: order-sensitive.
pub open spec fn combine(h: u64, next: u64) -> u64 {
    ((h as int * 31 + next as int) % 0x1_0000_0000_0000_0000) as u64
}

/// The 64-bit hash of a row of keys. The hash of a single key is the hash
/// of its value.
pub open spec fn row_hash(keys: Seq<DatumView>) -> u64
    decreases keys.len(),
{
    if keys.len() == 0 {
        0
    } else {
        combine(row_hash(keys.drop_last()), datum_hash(keys.last()))
    }
}

/// The values of the key programs on a row.
pub open spec fn key_row(keys: Seq<Seq<PInstruction>>, row: Seq<DatumView>) -> Seq<DatumView> {
    Seq::new(keys.len(), |k: int| run_row(keys[k], row).unwrap())
}

/// The consumer partition of a row: the hash of its keys modulo the number
/// of consumer partitions.
pub open spec fn partition_of(keys: Seq<Seq<PInstruction>>, row: Seq<DatumView>, cpartitions: PartitionId) -> int {
    row_hash(key_row(keys, row)) as int % cpartitions as int
}

/// For each row, whether it is assigned to partition `c`.
pub open spec fn share_mask(parts: Seq<u64>, c: int) -> Seq<bool> {
    Seq::new(parts.len(), |i: int| parts[i] == c)
}

/// The hash of a row of keys after one more key.
fn combine_hash(h: u64, next: u64) -> (r: u64)
    ensures
        r == combine(h, next),
{
    let wide: u128 = (h as u128) * 31 + (next as u128);
    (wide % 0x1_0000_0000_0000_0000u128) as u64
}

/// Text of the error for a shuffle to no partitions.
pub open spec fn no_partitions_text() -> Seq<char> {
    "Repartition: no consumer partitions"@
}

/// The directory of the spill files that consumer partition `pid` of the
/// shuffle `stage_link` reads in flow `flow_id`.
pub open spec fn partition_dir(temp_dir: Seq<char>, flow_id: usize, stage_link: StageLink, pid: PartitionId) -> Seq<char> {
    temp_dir + "/flow-"@ + decimal(flow_id as nat) + "/pipeline-"@ + decimal(stage_link.0 as nat) + "-"@ + decimal(
        stage_link.1 as nat,
    ) + "/consumer-"@ + decimal(pid as nat)
}

/// The spill file that producer partition `producer` writes for consumer
/// partition `pid`.
pub open spec fn spill_path(
    temp_dir: Seq<char>,
    flow_id: usize,
    stage_link: StageLink,
    pid: PartitionId,
    producer: PartitionId,
) -> Seq<char> {
    partition_dir(temp_dir, flow_id, stage_link, pid) + "/producer-"@ + decimal(producer as nat) + ".arrow"@
}

/// The directory of the spill files that consumer partition `pid` reads.
pub fn get_partition_dir(temp_dir: &str, flow_id: usize, stage_link: StageLink, pid: PartitionId) -> (dir: String)
    ensures
        dir@ == partition_dir(temp_dir@, flow_id, stage_link, pid),
{
    let mut dir = String::from_str(temp_dir);
    dir.append("/flow-");
    dir.append(usize_to_string(flow_id).as_str());
    dir.append("/pipeline-");
    dir.append(usize_to_string(stage_link.0).as_str());
    dir.append("-");
    dir.append(usize_to_string(stage_link.1).as_str());
    dir.append("/consumer-");
    dir.append(usize_to_string(pid).as_str());
    dir
}

/// One write to a spill file that a producer task asks for.
#[derive(Debug, PartialEq, Eq)]
pub struct FileWrite {
    /// The consumer partition that the rows are for.
    pub cpartition: PartitionId,
    /// The directory of the file.
    pub dirname: String,
    /// The file.
    pub path: String,
    /// Whether the file has to be created first: this is the first write to
    /// it.
    pub create: bool,
    /// The rows, never none.
    pub chunk: Chunk,
}

/// The per-task state of the write side of a shuffle.
#[derive(Debug, PartialEq, Eq)]
pub struct RepartitionWriteContext {
    pub pop_key: POPKey,
    /// The producer partition that the task runs.
    pub partition_id: PartitionId,
    /// For each consumer partition, whether its file has been written to.
    pub writers: Vec<bool>,
}

/// The writes for consumer partitions below `upto`: one for each partition
/// that gets rows, in the order of the partitions, as pairs of the
/// partition and its rows.
pub open spec fn shares(rows: Seq<Seq<DatumView>>, parts: Seq<u64>, upto: int) -> Seq<(PartitionId, Seq<Seq<DatumView>>)>
    decreases upto,
{
    if upto <= 0 {
        Seq::empty()
    } else {
        let before = shares(rows, parts, upto - 1);
        let share = filtered(rows, share_mask(parts, upto - 1));
        if share.len() > 0 {
            before.push(((upto - 1) as usize, share))
        } else {
            before
        }
    }
}

/// The partition and the rows of each write.
pub open spec fn write_views(writes: Seq<FileWrite>) -> Seq<(PartitionId, Seq<Seq<DatumView>>)> {
    Seq::new(writes.len(), |k: int| (writes[k].cpartition, chunk_rows(writes[k].chunk@)))
}

impl RepartitionWriteContext {
    /// The state of a task that has not written yet.
    pub fn new(pop_key: POPKey, rpw: &RepartitionWrite, partition_id: PartitionId) -> (ctx: Self)
        ensures
            ctx.pop_key == pop_key,
            ctx.partition_id == partition_id,
            ctx.writers@ == Seq::new(rpw.cpartitions as nat, |c: int| false),
    {
        let mut writers: Vec<bool> = Vec::new();
        let mut c: usize = 0;
        while c < rpw.cpartitions
            invariant
                c <= rpw.cpartitions,
                writers@.len() == c,
                forall|k: int| 0 <= k < c ==> #[trigger] writers@[k] == false,
            decreases rpw.cpartitions - c,
        {
            writers.push(false);
            c += 1;
        }
        assert(writers@ =~= Seq::new(rpw.cpartitions as nat, |c: int| false));
        RepartitionWriteContext { pop_key, partition_id, writers }
    }

    /// The values of the key programs on every row of `input`, one column
    /// per key. Fails when a program is malformed or has no value on a row.
    pub fn eval_repart_keys(repart_code: &Vec<PCode>, input: &Chunk) -> (res: Result<Chunk, String>)
        requires
            input.wf(),
        ensures
            res is Ok <==> all_well_formed(code_views(repart_code@)) && all_valued(code_views(repart_code@), input@),
            res matches Ok(keys) ==> {
                &&& keys.wf()
                &&& keys@.len() == repart_code@.len()
                &&& forall|k: int|
                    0 <= k < repart_code@.len() ==> #[trigger] keys@[k] == computed(code_views(repart_code@)[k], input@)
            },
            res matches Err(e) ==> e@ == if all_well_formed(code_views(repart_code@)) {
                type_error_text()
            } else {
                malformed_text()
            },
    {
        let ghost views = code_views(repart_code@);
        let mut k: usize = 0;
        while k < repart_code.len()
            invariant
                k <= repart_code@.len(),
                views == code_views(repart_code@),
                forall|j: int| 0 <= j < k ==> well_formed(#[trigger] views[j]),
            decreases repart_code@.len() - k,
        {
            if !repart_code[k].is_well_formed() {
                assert(!well_formed(views[k as int]));
                return Err(String::from_str("PCode: malformed program"));
            }
            k += 1;
        }
        let mut arrays: Vec<Column> = Vec::new();
        let mut k: usize = 0;
        while k < repart_code.len()
            invariant
                input.wf(),
                k <= repart_code@.len(),
                views == code_views(repart_code@),
                all_well_formed(views),
                arrays@.len() == k,
                forall|j: int| 0 <= j < k ==> crate::pop_apply::valued(#[trigger] views[j], input@),
                forall|j: int| 0 <= j < k ==> (#[trigger] arrays@[j])@ == computed(views[j], input@),
            decreases repart_code@.len() - k,
        {
            assert(views[k as int] == repart_code@[k as int]@);
            match repart_code[k].eval(input) {
                Ok(c) => {
                    proof {
                        assert forall|i: int| 0 <= i < rows_of(input@) implies (#[trigger] run_row(
                            views[k as int],
                            row_of(input@, i),
                        )) is Some by {
                            assert(run_row(repart_code@[k as int]@, input.row(i)) is Some);
                        }
                        assert(c@ =~= computed(views[k as int], input@)) by {
                            assert forall|i: int| 0 <= i < rows_of(input@) implies c@[i] == computed(
                                views[k as int],
                                input@,
                            )[i] by {
                                assert(run_row(repart_code@[k as int]@, input.row(i)) == Some(c@[i]));
                            }
                        }
                    }
                    arrays.push(c);
                },
                Err(_) => {
                    proof {
                        let i = choose|i: int|
                            0 <= i < input.spec_len() && !((#[trigger] run_row(repart_code@[k as int]@, input.row(i))) is Some);
                        assert(run_row(views[k as int], row_of(input@, i)) is None);
                    }
                    return Err(String::from_str("PCode: runtime type error"));
                },
            }
            k += 1;
        }
        let keys = Chunk { arrays };
        proof {
            assert forall|c: int| 0 <= c < keys@.len() implies (#[trigger] keys@[c]).len() == rows_of(keys@) by {
                assert(keys@[c].len() == rows_of(input@));
                assert(keys@[0].len() == rows_of(input@));
            }
        }
        Ok(keys)
    }

    /// The hash of every row of `chunk`, over all its columns in order.
    pub fn hash_chunk(chunk: &Chunk) -> (hashes: Vec<u64>)
        requires
            chunk.wf(),
        ensures
            hashes@.len() == chunk.spec_len(),
            forall|i: int| 0 <= i < hashes@.len() ==> #[trigger] hashes@[i] == row_hash(chunk.row(i)),
    {
        let n = chunk.len();
        let mut hashes: Vec<u64> = Vec::new();
        let mut i: usize = 0;
        while i < n
            invariant
                i <= n,
                hashes@.len() == i,
                forall|k: int| 0 <= k < i ==> #[trigger] hashes@[k] == 0,
            decreases n - i,
        {
            hashes.push(0);
            i += 1;
        }
        let mut c: usize = 0;
        proof {
            assert forall|k: int| 0 <= k < n implies #[trigger] hashes@[k] == row_hash(chunk.row(k).take(0)) by {
                assert(chunk.row(k).take(0) =~= Seq::<DatumView>::empty());
            }
        }
        while c < chunk.arrays.len()
            invariant
                chunk.wf(),
                n == chunk.spec_len(),
                c <= chunk.arrays@.len(),
                hashes@.len() == n,
                forall|k: int| 0 <= k < n ==> #[trigger] hashes@[k] == row_hash(chunk.row(k).take(c as int)),
            decreases chunk.arrays@.len() - c,
        {
            assert(chunk@[c as int].len() == rows_of(chunk@));
            let column_hashes = chunk.arrays[c].hash();
            let ghost before = hashes@;
            let mut next: Vec<u64> = Vec::new();
            let mut i: usize = 0;
            while i < n
                invariant
                    i <= n,
                    hashes@.len() == n,
                    column_hashes@.len() == n,
                    next@.len() == i,
                    forall|k: int| 0 <= k < i ==> #[trigger] next@[k] == combine(hashes@[k], column_hashes@[k]),
                decreases n - i,
            {
                next.push(combine_hash(hashes[i], column_hashes[i]));
                i += 1;
            }
            hashes = next;
            proof {
                assert forall|k: int| 0 <= k < n implies #[trigger] hashes@[k] == row_hash(chunk.row(k).take(c + 1)) by {
                    let longer = chunk.row(k).take(c + 1);
                    assert(longer.drop_last() =~= chunk.row(k).take(c as int));
                    assert(longer.last() == chunk@[c as int][k]);
                    assert(before[k] == row_hash(chunk.row(k).take(c as int)));
                }
            }
            c += 1;
        }
        proof {
            assert forall|i: int| 0 <= i < hashes@.len() implies #[trigger] hashes@[i] == row_hash(chunk.row(i)) by {
                assert(chunk.row(i).take(c as int) =~= chunk.row(i));
            }
        }
        hashes
    }

    /// The partition of every row: its hash modulo the number of
    /// partitions, which must not be zero.
    pub fn compute_partitions(hashed: &Vec<u64>, npartitions: PartitionId) -> (parts: Vec<u64>)
        requires
            npartitions > 0,
        ensures
            parts@.len() == hashed@.len(),
            forall|i: int| 0 <= i < hashed@.len() ==> #[trigger] parts@[i] == hashed@[i] as int % npartitions as int,
    {
        rem_scalar(hashed, npartitions as u64)
    }

    /// The rows of `chunk` assigned to consumer partition `cpartition`.
    /// Fails when `part_array` has not one entry per row.
    pub fn filter_partition(chunk: &Chunk, part_array: &Vec<u64>, cpartition: PartitionId) -> (res: Result<Chunk, String>)
        requires
            chunk.wf(),
        ensures
            res is Ok <==> part_array@.len() == chunk.spec_len(),
            res matches Ok(share) ==> {
                &&& share.wf()
                &&& share@.len() == chunk@.len()
                &&& chunk_rows(share@) == filtered(chunk_rows(chunk@), share_mask(part_array@, cpartition as int))
                &&& share.spec_len() == count_true(share_mask(part_array@, cpartition as int))
            },
            res matches Err(e) ==> e@ == crate::chunk::mask_length_text(),
    {
        let mask = eq_scalar(part_array, cpartition as u64);
        assert(mask@ =~= share_mask(part_array@, cpartition as int));
        filter_chunk(chunk, &mask)
    }

    /// The writes that hand the rows of `chunk` to their consumers: for
    /// each consumer partition that `part_array` assigns rows to, in the
    /// order of the partitions, one write of those rows, in their order, to
    /// the spill file of this producer for that consumer. A write creates
    /// the file when it is the first to it. Notes which files have been
    /// written to. Fails, changing nothing, when `part_array` has not one
    /// entry per row.
    pub fn write_partitions(
        &mut self,
        temp_dir: &str,
        flow_id: usize,
        rpw: &RepartitionWrite,
        chunk: &Chunk,
        part_array: &Vec<u64>,
    ) -> (res: Result<Vec<FileWrite>, String>)
        requires
            chunk.wf(),
            old(self).writers@.len() == rpw.cpartitions,
        ensures
            final(self).pop_key == old(self).pop_key,
            final(self).partition_id == old(self).partition_id,
            final(self).writers@.len() == rpw.cpartitions,
            res is Ok <==> part_array@.len() == chunk.spec_len(),
            res matches Ok(writes) ==> {
                &&& write_views(writes@) == shares(chunk_rows(chunk@), part_array@, rpw.cpartitions as int)
                &&& forall|k: int|
                    0 <= k < writes@.len() ==> {
                        &&& (#[trigger] writes@[k]).cpartition < rpw.cpartitions
                        &&& writes@[k].chunk.wf()
                        &&& writes@[k].chunk.spec_len() > 0
                        &&& writes@[k].create == !old(self).writers@[writes@[k].cpartition as int]
                        &&& writes@[k].dirname@ == partition_dir(temp_dir@, flow_id, rpw.stage_link, writes@[k].cpartition)
                        &&& writes@[k].path@ == spill_path(
                            temp_dir@,
                            flow_id,
                            rpw.stage_link,
                            writes@[k].cpartition,
                            old(self).partition_id,
                        )
                    }
                &&& forall|c: int|
                    0 <= c < rpw.cpartitions ==> #[trigger] final(self).writers@[c] == (old(self).writers@[c] || filtered(
                        chunk_rows(chunk@),
                        share_mask(part_array@, c),
                    ).len() > 0)
            },
            res matches Err(e) ==> e@ == crate::chunk::mask_length_text() && final(self).writers@ == old(self).writers@,
    {
        if part_array.len() != chunk.len() {
            return Err(String::from_str("Filter: the mask must have one entry per row"));
        }
        let ghost rows = chunk_rows(chunk@);
        let mut writes: Vec<FileWrite> = Vec::new();
        let mut cpartition: usize = 0;
        assert(write_views(writes@) =~= shares(rows, part_array@, 0));
        while cpartition < rpw.cpartitions
            invariant
                chunk.wf(),
                rows == chunk_rows(chunk@),
                part_array@.len() == chunk.spec_len(),
                cpartition <= rpw.cpartitions,
                self.pop_key == old(self).pop_key,
                self.partition_id == old(self).partition_id,
                self.writers@.len() == rpw.cpartitions,
                write_views(writes@) == shares(rows, part_array@, cpartition as int),
                forall|k: int|
                    0 <= k < writes@.len() ==> {
                        &&& (#[trigger] writes@[k]).cpartition < cpartition
                        &&& writes@[k].chunk.wf()
                        &&& writes@[k].chunk.spec_len() > 0
                        &&& writes@[k].create == !old(self).writers@[writes@[k].cpartition as int]
                        &&& writes@[k].dirname@ == partition_dir(temp_dir@, flow_id, rpw.stage_link, writes@[k].cpartition)
                        &&& writes@[k].path@ == spill_path(
                            temp_dir@,
                            flow_id,
                            rpw.stage_link,
                            writes@[k].cpartition,
                            old(self).partition_id,
                        )
                    },
                forall|c: int|
                    0 <= c < cpartition ==> #[trigger] self.writers@[c] == (old(self).writers@[c] || filtered(
                        rows,
                        share_mask(part_array@, c),
                    ).len() > 0),
                forall|c: int| cpartition <= c < rpw.cpartitions ==> #[trigger] self.writers@[c] == old(self).writers@[c],
            decreases rpw.cpartitions - cpartition,
        {
            // Filter chunk to only grab this partition
            let filtered_chunk = match Self::filter_partition(chunk, part_array, cpartition) {
                Ok(c) => c,
                Err(e) => {
                    return Err(e);
                },
            };
            let ghost before = writes@;
            proof {
                lemma_filtered_len(rows, share_mask(part_array@, cpartition as int));
            }
            if filtered_chunk.len() > 0 {
                let dirname = get_partition_dir(temp_dir, flow_id, rpw.stage_link, cpartition);
                let mut path = get_partition_dir(temp_dir, flow_id, rpw.stage_link, cpartition);
                path.append("/producer-");
                path.append(usize_to_string(self.partition_id).as_str());
                path.append(".arrow");
                let create = !self.writers[cpartition];
                self.writers.set(cpartition, true);
                writes.push(FileWrite { cpartition, dirname, path, create, chunk: filtered_chunk });
                assert(write_views(writes@) =~= write_views(before).push(
                    (cpartition, filtered(rows, share_mask(part_array@, cpartition as int))),
                ));
            } else {
                assert(chunk_rows(filtered_chunk@).len() == filtered_chunk.spec_len());
            }
            cpartition += 1;
        }
        Ok(writes)
    }

    /// The spill files to close at the end of the input: those that have
    /// been written to, in the order of the consumer partitions.
    pub fn finish_writers(&self, temp_dir: &str, flow_id: usize, rpw: &RepartitionWrite) -> (paths: Vec<String>)
        requires
            self.writers@.len() == rpw.cpartitions,
        ensures
            string_paths(paths@) == open_paths(
                temp_dir@,
                flow_id,
                rpw.stage_link,
                self.partition_id,
                self.writers@,
                rpw.cpartitions as int,
            ),
    {
        let mut paths: Vec<String> = Vec::new();
        let mut cpartition: usize = 0;
        assert(string_paths(paths@) =~= Seq::<Seq<char>>::empty());
        while cpartition < rpw.cpartitions
            invariant
                cpartition <= rpw.cpartitions,
                self.writers@.len() == rpw.cpartitions,
                string_paths(paths@) == open_paths(
                    temp_dir@,
                    flow_id,
                    rpw.stage_link,
                    self.partition_id,
                    self.writers@,
                    cpartition as int,
                ),
            decreases rpw.cpartitions - cpartition,
        {
            let ghost before = paths@;
            if self.writers[cpartition] {
                let mut path = get_partition_dir(temp_dir, flow_id, rpw.stage_link, cpartition);
                path.append("/producer-");
                path.append(usize_to_string(self.partition_id).as_str());
                path.append(".arrow");
                paths.push(path);
                assert(string_paths(paths@) =~= string_paths(before).push(
                    spill_path(temp_dir@, flow_id, rpw.stage_link, cpartition, self.partition_id),
                ));
            }
            cpartition += 1;
        }
        paths
    }
}

/// The contents of a list of paths.
pub open spec fn string_paths(paths: Seq<String>) -> Seq<Seq<char>> {
    Seq::new(paths.len(), |i: int| paths[i]@)
}

/// The spill files of producer `producer` for the consumer partitions below
/// `upto` whose files have been written to.
pub open spec fn open_paths(
    temp_dir: Seq<char>,
    flow_id: usize,
    stage_link: StageLink,
    producer: PartitionId,
    writers: Seq<bool>,
    upto: int,
) -> Seq<Seq<char>>
    decreases upto,
{
    if upto <= 0 {
        Seq::empty()
    } else {
        let before = open_paths(temp_dir, flow_id, stage_link, producer, writers, upto - 1);
        if writers[upto - 1] {
            before.push(spill_path(temp_dir, flow_id, stage_link, (upto - 1) as usize, producer))
        } else {
            before
        }
    }
}

/// The consumer partition of every row of a batch.
pub open spec fn row_partitions(keys: Seq<Seq<PInstruction>>, columns: Seq<Seq<DatumView>>, cpartitions: PartitionId) -> Seq<
    u64,
> {
    Seq::new(rows_of(columns), |i: int| partition_of(keys, row_of(columns, i), cpartitions) as u64)
}

/// Text of the error for a shuffle without keys.
pub open spec fn no_keys_text() -> Seq<char> {
    "Repartition: no partitioning keys"@
}

/// Why a chunk cannot be repartitioned, if it cannot: there are no
/// consumer partitions or no keys; a key program is malformed or has no
/// value on some row; the properties of the operator cannot be applied to
/// the chunk; or they drop rows, so that rows and keys no longer match.
pub open spec fn repartition_fault(rpw: &RepartitionWrite, props: POPPropsView, columns: Seq<Seq<DatumView>>) -> Option<
    Seq<char>,
> {
    if rpw.cpartitions == 0 {
        Some(no_partitions_text())
    } else if rpw.repart_key@.len() == 0 {
        Some(no_keys_text())
    } else if !all_well_formed(code_views(rpw.repart_key@)) {
        Some(malformed_text())
    } else if !all_valued(code_views(rpw.repart_key@), columns) {
        Some(type_error_text())
    } else if apply_fault(props, columns) is Some {
        apply_fault(props, columns)
    } else if rows_of(applied(props, columns)) != rows_of(columns) {
        Some(crate::chunk::mask_length_text())
    } else {
        None
    }
}

impl RepartitionWriteContext {
    /// Repartitions one chunk of the input: evaluates the key programs on
    /// the chunk, hashes the keys of every row, takes the hash modulo the
    /// number of consumer partitions, and asks for one write per consumer
    /// partition that gets rows. What is written are the rows as the
    /// properties of the operator shape them.
    pub fn next(
        &mut self,
        temp_dir: &str,
        flow_id: usize,
        rpw: &RepartitionWrite,
        props: &POPProps,
        chunk: &Chunk,
    ) -> (res: Result<Vec<FileWrite>, String>)
        requires
            chunk.wf(),
            old(self).writers@.len() == rpw.cpartitions,
        ensures
            final(self).pop_key == old(self).pop_key,
            final(self).partition_id == old(self).partition_id,
            final(self).writers@.len() == rpw.cpartitions,
            match res {
                Ok(writes) => {
                    let parts = row_partitions(code_views(rpw.repart_key@), chunk@, rpw.cpartitions);
                    let rows = chunk_rows(applied(props@, chunk@));
                    &&& repartition_fault(rpw, props@, chunk@) is None
                    &&& write_views(writes@) == shares(rows, parts, rpw.cpartitions as int)
                    &&& forall|k: int|
                        0 <= k < writes@.len() ==> {
                            &&& (#[trigger] writes@[k]).cpartition < rpw.cpartitions
                            &&& writes@[k].chunk.wf()
                            &&& writes@[k].chunk.spec_len() > 0
                            &&& writes@[k].create == !old(self).writers@[writes@[k].cpartition as int]
                            &&& writes@[k].dirname@ == partition_dir(
                                temp_dir@,
                                flow_id,
                                rpw.stage_link,
                                writes@[k].cpartition,
                            )
                            &&& writes@[k].path@ == spill_path(
                                temp_dir@,
                                flow_id,
                                rpw.stage_link,
                                writes@[k].cpartition,
                                old(self).partition_id,
                            )
                        }
                    &&& forall|c: int|
                        0 <= c < rpw.cpartitions ==> #[trigger] final(self).writers@[c] == (old(self).writers@[c]
                            || filtered(rows, share_mask(parts, c)).len() > 0)
                },
                Err(e) => repartition_fault(rpw, props@, chunk@) == Some(e@) && final(self).writers@ == old(self).writers@,
            },
    {
        if rpw.cpartitions == 0 {
            return Err(String::from_str("Repartition: no consumer partitions"));
        }
        if rpw.repart_key.len() == 0 {
            return Err(String::from_str("Repartition: no partitioning keys"));
        }
        // Compute partitioning keys
        let repart_keys = Self::eval_repart_keys(&rpw.repart_key, chunk)?;
        // Compute hash
        let repart_hash = Self::hash_chunk(&repart_keys);
        // Compute partitions
        let part_array = Self::compute_partitions(&repart_hash, rpw.cpartitions);
        proof {
            let keys = code_views(rpw.repart_key@);
            assert(rows_of(repart_keys@) == rows_of(chunk@)) by {
                assert(repart_keys@[0] == computed(keys[0], chunk@));
            }
            assert(part_array@ =~= row_partitions(keys, chunk@, rpw.cpartitions)) by {
                assert forall|i: int| 0 <= i < part_array@.len() implies part_array@[i] == row_partitions(
                    keys,
                    chunk@,
                    rpw.cpartitions,
                )[i] by {
                    assert(repart_keys.row(i) =~= key_row(keys, row_of(chunk@, i)));
                    assert(repart_hash@[i] == row_hash(repart_keys.row(i)));
                }
            }
        }
        let rows = props.apply(chunk)?;
        // Write partitions
        self.write_partitions(temp_dir, flow_id, rpw, &rows, &part_array)
    }
}

/// All rows of a sequence of batches, in order.
pub open spec fn all_rows(batches: Seq<Seq<Seq<DatumView>>>) -> Seq<Seq<DatumView>>
    decreases batches.len(),
{
    if batches.len() == 0 {
        Seq::empty()
    } else {
        all_rows(batches.drop_last()) + batches.last()
    }
}

/// The consumer partition of every row of a list of rows.
pub open spec fn partitions_of_rows(keys: Seq<Seq<PInstruction>>, rows: Seq<Seq<DatumView>>, cpartitions: PartitionId) -> Seq<
    u64,
> {
    Seq::new(rows.len(), |i: int| partition_of(keys, rows[i], cpartitions) as u64)
}

/// What consumer partition `c` reads after the batches have gone through
/// the write side: of every batch, in order, the rows assigned to `c`.
pub open spec fn consumer_rows(
    batches: Seq<Seq<Seq<DatumView>>>,
    keys: Seq<Seq<PInstruction>>,
    cpartitions: PartitionId,
    c: int,
) -> Seq<Seq<DatumView>>
    decreases batches.len(),
{
    if batches.len() == 0 {
        Seq::empty()
    } else {
        consumer_rows(batches.drop_last(), keys, cpartitions, c) + filtered(
            batches.last(),
            share_mask(partitions_of_rows(keys, batches.last(), cpartitions), c),
        )
    }
}

/// Filtering by a mask that says of each element whether it satisfies a
/// predicate is filtering by the predicate.
pub proof fn lemma_filtered_is_filter<T>(values: Seq<T>, mask: Seq<bool>, pred: spec_fn(T) -> bool)
    requires
        mask.len() == values.len(),
        forall|i: int| 0 <= i < values.len() ==> #[trigger] mask[i] == pred(values[i]),
    ensures
        filtered(values, mask) == values.filter(pred),
    decreases values.len(),
{
    reveal(Seq::filter);
    if values.len() > 0 {
        lemma_filtered_is_filter(values.drop_last(), mask.drop_last(), pred);
    }
}

/// An element occurs in a filtered sequence as often as in the sequence if
/// it satisfies the predicate, and not at all if it does not.
pub proof fn lemma_filter_count<T>(values: Seq<T>, pred: spec_fn(T) -> bool, v: T)
    ensures
        values.filter(pred).to_multiset().count(v) == if pred(v) {
            values.to_multiset().count(v)
        } else {
            0
        },
    decreases values.len(),
{
    reveal(Seq::filter);
    broadcast use vstd::multiset::group_multiset_axioms;

    if values.len() == 0 {
        assert(values.to_multiset() =~= vstd::multiset::Multiset::<T>::empty()) by {
            values.to_multiset_ensures();
        }
    } else {
        let front = values.drop_last();
        lemma_filter_count(front, pred, v);
        assert(values =~= front.push(values.last()));
        to_multiset_build(front, values.last());
        if pred(values.last()) {
            to_multiset_build(front.filter(pred), values.last());
        }
    }
}

/// Soundness of the hash repartition: whatever batches the producers
/// write, and in whatever order their files are read, consumer partition
/// `c` reads exactly the rows whose key hash modulo the number of consumer
/// partitions is `c`: the same rows, as often as they were written.
pub proof fn lemma_repartition_sound(
    batches: Seq<Seq<Seq<DatumView>>>,
    keys: Seq<Seq<PInstruction>>,
    cpartitions: PartitionId,
    c: int,
)
    requires
        0 <= c < cpartitions,
    ensures
        consumer_rows(batches, keys, cpartitions, c) == all_rows(batches).filter(
            |r: Seq<DatumView>| partition_of(keys, r, cpartitions) == c,
        ),
        forall|row: Seq<DatumView>|
            #![trigger consumer_rows(batches, keys, cpartitions, c).to_multiset().count(row)]
            consumer_rows(batches, keys, cpartitions, c).to_multiset().count(row) == if partition_of(
                keys,
                row,
                cpartitions,
            ) == c {
                all_rows(batches).to_multiset().count(row)
            } else {
                0
            },
    decreases batches.len(),
{
    let pred = |r: Seq<DatumView>| partition_of(keys, r, cpartitions) == c;
    if batches.len() == 0 {
        reveal(Seq::filter);
    } else {
        lemma_repartition_sound(batches.drop_last(), keys, cpartitions, c);
        let last = batches.last();
        let mask = share_mask(partitions_of_rows(keys, last, cpartitions), c);
        assert forall|i: int| 0 <= i < last.len() implies #[trigger] mask[i] == pred(last[i]) by {
            let p = partition_of(keys, last[i], cpartitions);
            assert(0 <= p < cpartitions) by (nonlinear_arith)
                requires
                    p == row_hash(key_row(keys, last[i])) as int % cpartitions as int,
                    cpartitions > 0,
            ;
        }
        lemma_filtered_is_filter(last, mask, pred);
        Seq::filter_distributes_over_add(all_rows(batches.drop_last()), last, pred);
    }
    assert forall|row: Seq<DatumView>|
        #![trigger consumer_rows(batches, keys, cpartitions, c).to_multiset().count(row)]
        consumer_rows(batches, keys, cpartitions, c).to_multiset().count(row) == if partition_of(keys, row, cpartitions)
            == c {
            all_rows(batches).to_multiset().count(row)
        } else {
            0
        } by {
        lemma_filter_count(all_rows(batches), pred, row);
    }
}

/// Rows that the write side hands to no consumer are missed by nobody: a
/// consumer partition to which no row of a chunk is assigned gets no write
/// for that chunk.
pub proof fn lemma_no_rows_no_write(rows: Seq<Seq<DatumView>>, parts: Seq<u64>, upto: int, c: int)
    requires
        parts.len() == rows.len(),
        upto <= usize::MAX,
        forall|i: int| 0 <= i < parts.len() ==> parts[i] != c,
    ensures
        forall|k: int| 0 <= k < shares(rows, parts, upto).len() ==> (#[trigger] shares(rows, parts, upto)[k]).0 != c,
    decreases upto,
{
    if upto > 0 {
        lemma_no_rows_no_write(rows, parts, upto - 1, c);
        let before = shares(rows, parts, upto - 1);
        let mask = share_mask(parts, upto - 1);
        if upto - 1 == c {
            assert forall|i: int| 0 <= i < mask.len() implies !mask[i] by {
                assert(parts[i] != c);
            }
            lemma_filtered_len(rows, mask);
            lemma_count_true_none(mask);
            assert(shares(rows, parts, upto) == before);
        } else {
            assert forall|k: int| 0 <= k < shares(rows, parts, upto).len() implies (#[trigger] shares(
                rows,
                parts,
                upto,
            )[k]).0 != c by {
                if k < before.len() {
                    assert(shares(rows, parts, upto)[k] == before[k]);
                }
            }
        }
    }
}

/// A mask that is false everywhere has no true position.
proof fn lemma_count_true_none(mask: Seq<bool>)
    requires
        forall|i: int| 0 <= i < mask.len() ==> !mask[i],
    ensures
        count_true(mask) == 0,
    decreases mask.len(),
{
    if mask.len() > 0 {
        lemma_count_true_none(mask.drop_last());
    }
}

/// An entry of a directory.
#[derive(Debug, PartialEq, Eq)]
pub struct DirEntry {
    pub path: String,
    pub is_dir: bool,
}

/// The paths of the entries that are not directories, in order.
pub open spec fn file_paths(entries: Seq<DirEntry>) -> Seq<Seq<char>>
    decreases entries.len(),
{
    if entries.len() == 0 {
        Seq::empty()
    } else if entries.last().is_dir {
        file_paths(entries.drop_last())
    } else {
        file_paths(entries.drop_last()).push(entries.last().path@)
    }
}

/// The files among the entries of a directory.
pub fn list_files(entries: &Vec<DirEntry>) -> (pathnames: Vec<String>)
    ensures
        string_paths(pathnames@) == file_paths(entries@),
{
    let mut pathnames: Vec<String> = Vec::new();
    let mut i: usize = 0;
    assert(string_paths(pathnames@) =~= file_paths(entries@.take(0)));
    while i < entries.len()
        invariant
            i <= entries@.len(),
            string_paths(pathnames@) == file_paths(entries@.take(i as int)),
        decreases entries@.len() - i,
    {
        proof {
            assert(entries@.take(i + 1).drop_last() =~= entries@.take(i as int));
        }
        let ghost before = pathnames@;
        if !entries[i].is_dir {
            pathnames.push(entries[i].path.clone());
            assert(string_paths(pathnames@) =~= string_paths(before).push(entries@[i as int].path@));
        }
        i += 1;
    }
    assert(entries@.take(i as int) =~= entries@);
    pathnames
}

/// The per-task state of the read side of a shuffle: the spill files of the
/// task's partition and the chunks read from them that are still to be
/// handed on.
#[derive(Debug, PartialEq, Eq)]
pub struct RepartitionReadContext {
    pub pop_key: POPKey,
    /// The consumer partition that the task runs.
    pub partition_id: PartitionId,
    /// The spill files written for the partition.
    pub files: Vec<String>,
    /// The chunks of those files, in the order of the files.
    pub chunks: Vec<Chunk>,
    /// Number of chunks handed on or skipped so far.
    pub position: usize,
}

/// Whether the text of an error says that a directory does not exist.
pub open spec fn is_not_found(text: Seq<char>) -> bool {
    occurs_in("kind: NotFound"@, text)
}

/// Position of the first chunk with rows at or after `from`; the number of
/// chunks when there is none.
pub open spec fn next_with_rows(chunks: Seq<Chunk>, from: int) -> int
    decreases chunks.len() - from,
{
    if from >= chunks.len() {
        chunks.len() as int
    } else if chunks[from].spec_len() > 0 {
        from
    } else {
        next_with_rows(chunks, from + 1)
    }
}

impl RepartitionReadContext {
    /// The state of a task of consumer partition `partition_id`, given the
    /// outcome of listing the directory of its spill files. A directory
    /// that does not exist means that no producer wrote for the partition:
    /// the task then has no files, and no error. Any other failure of the
    /// listing is handed on.
    pub fn new(pop_key: POPKey, partition_id: PartitionId, listing: Result<Vec<String>, String>) -> (res: Result<
        Self,
        String,
    >)
        ensures
            match listing {
                Ok(files) => res == Ok::<Self, String>(
                    RepartitionReadContext { pop_key, partition_id, files, chunks: res.unwrap().chunks, position: 0 },
                ) && res.unwrap().chunks@.len() == 0,
                Err(e) => if is_not_found(e@) {
                    &&& res matches Ok(ctx)
                    &&& ctx.pop_key == pop_key
                    &&& ctx.partition_id == partition_id
                    &&& ctx.files@.len() == 0
                    &&& ctx.chunks@.len() == 0
                    &&& ctx.position == 0
                } else {
                    res == Err::<Self, String>(e)
                },
            },
    {
        let files = match listing {
            Ok(files) => files,
            Err(errstr) => {
                if !contains_text(errstr.as_str(), "kind: NotFound") {
                    return Err(errstr);
                }
                Vec::new()
            },
        };
        Ok(RepartitionReadContext { pop_key, partition_id, files, chunks: Vec::new(), position: 0 })
    }

    /// Takes in the chunks read from the files of the partition, in the
    /// order of the files.
    pub fn load(&mut self, chunks: Vec<Chunk>)
        ensures
            *final(self) == (RepartitionReadContext { chunks, position: 0, ..*old(self) }),
    {
        self.chunks = chunks;
        self.position = 0;
    }

    /// The next chunk of the stream: the first chunk with rows that has not
    /// been handed on, or the chunk without rows when the stream is at its
    /// end.
    pub fn next(&mut self) -> (chunk: Chunk)
        requires
            old(self).position <= old(self).chunks@.len(),
        ensures
            final(self).pop_key == old(self).pop_key,
            final(self).partition_id == old(self).partition_id,
            final(self).files == old(self).files,
            final(self).chunks == old(self).chunks,
            ({
                let k = next_with_rows(old(self).chunks@, old(self).position as int);
                if k < old(self).chunks@.len() {
                    chunk@ == old(self).chunks@[k]@ && chunk.spec_len() > 0 && final(self).position == k + 1
                } else {
                    chunk@.len() == 0 && chunk.spec_len() == 0 && final(self).position == old(self).chunks@.len()
                }
            }),
    {
        while self.position < self.chunks.len()
            invariant
                old(self).position <= self.position <= self.chunks@.len(),
                self.pop_key == old(self).pop_key,
                self.partition_id == old(self).partition_id,
                self.files == old(self).files,
                self.chunks == old(self).chunks,
                next_with_rows(old(self).chunks@, old(self).position as int) == next_with_rows(
                    self.chunks@,
                    self.position as int,
                ),
            decreases self.chunks@.len() - self.position,
        {
            let k = self.position;
            self.position = k + 1;
            if self.chunks[k].len() > 0 {
                return self.chunks[k].clone();
            }
        }
        Chunk::empty()
    }
}

} // verus!
