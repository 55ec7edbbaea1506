//! The per-task state of the operators of a stage, and the pull of chunks
//! through them: every operator hands on its next chunk when asked, pulling
//! from its inputs what it needs for it.

use crate::chunk::{chunk_rows, rectangular, row_of, rows_of, Chunk};
use crate::includes::PartitionId;
use crate::kernels::{count_true, filtered, lemma_filtered_len};
use crate::pcode::{code_views, PInstruction};
use crate::pop::{POPKey, POPProps, POPPropsView};
use crate::pop_aggregation::{
    absorb_all, absorb_rows, entries_of, group_position, group_views, lemma_absorb_all_concat, lemma_absorb_rows,
    lemma_groups_permutation, result_columns, result_fits, result_text, update_fault, Aggregation,
    AggregationContext, AggregationView, Entry, GroupView,
};
use crate::pop_apply::{applied, apply_fault};
use crate::pop_hashjoin::{build_step, probe_step, BuildState, HashJoin, HashJoinContext};
use crate::pop_repartition::{
    key_row, lemma_filter_count, lemma_filtered_is_filter, open_paths, partition_dir, partition_of,
    repartition_fault, row_hash, row_partitions, share_mask, shares, spill_path, string_paths, write_views,
    FileWrite, RepartitionReadContext, RepartitionWrite, RepartitionWriteContext,
};
use crate::row::DatumView;
use crate::stage::StageLink;
use vstd::prelude::*;

verus! {

/// A chunk given by its columns.
pub type ChunkView = Seq<Seq<DatumView>>;

/// What a stream will deliver from now on: its chunks, in order, and then
/// either its end or a fault.
pub struct Outcome {
    pub chunks: Seq<ChunkView>,
    pub fault: Option<Seq<char>>,
}

/// The stream at its end.
pub open spec fn ended() -> Outcome {
    Outcome { chunks: Seq::empty(), fault: None }
}

/// The stream that fails at once.
pub open spec fn failed(e: Seq<char>) -> Outcome {
    Outcome { chunks: Seq::empty(), fault: Some(e) }
}

/// The stream after its first chunk.
pub open spec fn rest(s: Outcome) -> Outcome {
    Outcome { chunks: s.chunks.skip(1), fault: s.fault }
}

/// The stream that hands on `f` of every chunk of `s`, but for the chunks
/// that `f` leaves without rows. It fails where `f` fails on a chunk, and
/// where `s` fails.
pub open spec fn mapped(f: spec_fn(ChunkView) -> Result<ChunkView, Seq<char>>, s: Outcome) -> Outcome
    decreases s.chunks.len(),
{
    if s.chunks.len() == 0 {
        Outcome { chunks: Seq::empty(), fault: s.fault }
    } else {
        match f(s.chunks[0]) {
            Err(e) => failed(e),
            Ok(out) => {
                let later = mapped(f, rest(s));
                if rows_of(out) > 0 {
                    Outcome { chunks: seq![out] + later.chunks, fault: later.fault }
                } else {
                    later
                }
            },
        }
    }
}

/// The state that taking in every chunk of `s` leads to, starting from
/// `state`; the fault of the first chunk that cannot be taken in, or that
/// of `s`.
pub open spec fn drained<S>(step: spec_fn(S, ChunkView) -> Result<S, Seq<char>>, state: S, s: Outcome) -> Result<
    S,
    Seq<char>,
>
    decreases s.chunks.len(),
{
    if s.chunks.len() == 0 {
        match s.fault {
            Some(e) => Err(e),
            None => Ok(state),
        }
    } else {
        match step(state, s.chunks[0]) {
            Err(e) => Err(e),
            Ok(next) => drained(step, next, rest(s)),
        }
    }
}

/// A mapped stream, by the first chunk of the stream it maps.
pub proof fn lemma_mapped_first(f: spec_fn(ChunkView) -> Result<ChunkView, Seq<char>>, s: Outcome)
    requires
        s.chunks.len() > 0,
    ensures
        mapped(f, s) == match f(s.chunks[0]) {
            Err(e) => failed(e),
            Ok(out) => if rows_of(out) > 0 {
                Outcome { chunks: seq![out] + mapped(f, rest(s)).chunks, fault: mapped(f, rest(s)).fault }
            } else {
                mapped(f, rest(s))
            },
        },
{
}

/// What taking in a stream leads to, by the first chunk of the stream.
pub proof fn lemma_drained_first<S>(step: spec_fn(S, ChunkView) -> Result<S, Seq<char>>, state: S, s: Outcome)
    requires
        s.chunks.len() > 0,
    ensures
        drained(step, state, s) == match step(state, s.chunks[0]) {
            Err(e) => Err(e),
            Ok(next) => drained(step, next, rest(s)),
        },
{
}

/// Every chunk that a mapped stream hands on has rows.
pub proof fn lemma_mapped_has_rows(f: spec_fn(ChunkView) -> Result<ChunkView, Seq<char>>, s: Outcome)
    ensures
        forall|i: int| 0 <= i < mapped(f, s).chunks.len() ==> rows_of(#[trigger] mapped(f, s).chunks[i]) > 0,
    decreases s.chunks.len(),
{
    if s.chunks.len() > 0 {
        lemma_mapped_has_rows(f, rest(s));
        match f(s.chunks[0]) {
            Err(_) => {},
            Ok(out) => {
                let later = mapped(f, rest(s));
                if rows_of(out) > 0 {
                    assert forall|i: int| 0 <= i < mapped(f, s).chunks.len() implies rows_of(
                        #[trigger] mapped(f, s).chunks[i],
                    ) > 0 by {
                        if i > 0 {
                            assert(mapped(f, s).chunks[i] == later.chunks[i - 1]);
                        }
                    }
                }
            },
        }
    }
}

/// What a call for the next chunk of a stream gives: the first chunk of the
/// stream, which has rows, where there is one, and the stream goes on after
/// it; the chunk without rows at the end of the stream; the fault where the
/// stream fails before it hands on anything more.
pub open spec fn delivers(before: Outcome, res: Result<Chunk, String>, after: Outcome) -> bool {
    match res {
        Ok(chunk) => chunk.wf() && if before.chunks.len() > 0 {
            chunk@ == before.chunks[0] && chunk.spec_len() > 0 && after == rest(before)
        } else {
            before.fault is None && chunk@.len() == 0 && chunk.spec_len() == 0 && after == ended()
        },
        Err(e) => before.chunks.len() == 0 && before.fault == Some(e@),
    }
}

/// The per-task state of an operator: asked for its next chunk, it hands
/// on the chunks of its stream one by one, and the chunk without rows at
/// the end.
pub trait POPContext {
    /// Whether the state is sound.
    spec fn valid(&self) -> bool;

    /// What the operator will deliver from now on.
    spec fn stream(&self) -> Outcome;

    /// The next chunk of the stream.
    fn next(&mut self) -> (res: Result<Chunk, String>)
        requires
            old(self).valid(),
        ensures
            final(self).valid(),
            delivers(old(self).stream(), res, final(self).stream()),
    ;
}

/// Text of the error for a chunk whose arrays differ in length.
pub open spec fn chunk_shape_text() -> Seq<char> {
    "Task: a chunk has arrays of different lengths"@
}

/// A chunk as it is, if its columns have one length.
pub open spec fn checked() -> spec_fn(ChunkView) -> Result<ChunkView, Seq<char>> {
    |c: ChunkView|
        if rectangular(c) {
            Ok(c)
        } else {
            Err(chunk_shape_text())
        }
}

/// A chunk as the properties of an operator shape it.
pub open spec fn shaped(props: POPPropsView) -> spec_fn(ChunkView) -> Result<ChunkView, Seq<char>> {
    |c: ChunkView|
        match apply_fault(props, c) {
            Some(e) => Err(e),
            None => Ok(applied(props, c)),
        }
}

/// A chunk of the probe side joined with a build side and shaped by the
/// properties of the join.
pub open spec fn probing(keys: Seq<Seq<PInstruction>>, st: BuildState, props: POPPropsView) -> spec_fn(ChunkView) -> Result<
    ChunkView,
    Seq<char>,
> {
    |c: ChunkView|
        match probe_step(keys, st, c) {
            Err(e) => Err(e),
            Ok(joined) => match apply_fault(props, joined) {
                Some(e) => Err(e),
                None => Ok(applied(props, joined)),
            },
        }
}

/// A chunk taken into the build side of a join.
pub open spec fn building(keys: Seq<Seq<PInstruction>>) -> spec_fn(BuildState, ChunkView) -> Result<BuildState, Seq<char>> {
    |st: BuildState, c: ChunkView| build_step(keys, st, c)
}

/// The groups of an aggregation and the number of rows it has taken in.
pub type Grouping = (Seq<GroupView>, nat);

/// A chunk taken into an aggregation.
pub open spec fn grouping(agg: AggregationView) -> spec_fn(Grouping, ChunkView) -> Result<Grouping, Seq<char>> {
    |st: Grouping, c: ChunkView|
        match update_fault(agg, st.1 as u64, c) {
            Some(e) => Err(e),
            None => Ok((absorb_rows(st.0, agg, c, rows_of(c)), st.1 + rows_of(c))),
        }
}

/// The chunks read for a leaf from position `position` on.
pub open spec fn pending(chunks: Seq<Chunk>, position: int) -> Outcome {
    Outcome { chunks: Seq::new((chunks.len() - position) as nat, |i: int| chunks[position + i]@), fault: None }
}

/// What a leaf hands on before its properties are applied: the chunks read
/// for it that have rows; it fails at a chunk whose arrays differ in
/// length.
pub open spec fn raw(chunks: Seq<Chunk>, position: int) -> Outcome {
    mapped(checked(), pending(chunks, position))
}

/// The next chunk read for a leaf.
pub fn next_raw(chunks: &Vec<Chunk>, position: &mut usize) -> (res: Result<Chunk, String>)
    requires
        *old(position) <= chunks@.len(),
    ensures
        *final(position) <= chunks@.len(),
        delivers(raw(chunks@, *old(position) as int), res, raw(chunks@, *final(position) as int)),
{
    let ghost before = raw(chunks@, *position as int);
    while *position < chunks.len()
        invariant
            *position <= chunks@.len(),
            before == raw(chunks@, *old(position) as int),
            raw(chunks@, *position as int) == before,
        decreases chunks@.len() - *position,
    {
        let k = *position;
        let ghost here = pending(chunks@, k as int);
        proof {
            assert(here.chunks[0] == chunks@[k as int]@);
            assert(rest(here).chunks =~= pending(chunks@, k + 1).chunks);
            assert(rest(here) == pending(chunks@, k + 1));
            lemma_mapped_first(checked(), here);
        }
        if !chunks[k].check() {
            return Err(String::from_str("Task: a chunk has arrays of different lengths"));
        }
        *position = k + 1;
        if chunks[k].len() > 0 {
            let chunk = chunks[k].clone();
            proof {
                let later = raw(chunks@, k + 1);
                assert(before.chunks[0] == chunks@[k as int]@);
                assert(rest(before).chunks =~= later.chunks);
            }
            return Ok(chunk);
        }
    }
    proof {
        assert(pending(chunks@, *position as int).chunks.len() == 0);
    }
    Ok(Chunk::empty())
}

/// A leaf for which nothing was read, or only chunks without rows, is at
/// its end: it hands on nothing and does not fail, whatever its properties.
pub proof fn lemma_nothing_read(props: POPPropsView, chunks: Seq<Chunk>, position: int)
    requires
        0 <= position <= chunks.len(),
        forall|i: int| position <= i < chunks.len() ==> rectangular(chunks[i]@) && rows_of(chunks[i]@) == 0,
    ensures
        raw(chunks, position) == ended(),
        mapped(shaped(props), raw(chunks, position)) == ended(),
    decreases chunks.len() - position,
{
    let here = pending(chunks, position);
    if position < chunks.len() {
        lemma_nothing_read(props, chunks, position + 1);
        assert(here.chunks[0] == chunks[position]@);
        assert(rest(here).chunks =~= pending(chunks, position + 1).chunks);
        assert(rest(here) == pending(chunks, position + 1));
    }
}

/// The mathematical value of a write to a spill file.
pub struct WriteView {
    pub cpartition: PartitionId,
    pub dirname: Seq<char>,
    pub path: Seq<char>,
    pub create: bool,
    pub rows: Seq<Seq<DatumView>>,
}

/// The mathematical value of a list of writes.
pub open spec fn full_views(writes: Seq<FileWrite>) -> Seq<WriteView> {
    Seq::new(
        writes.len(),
        |k: int|
            WriteView {
                cpartition: writes[k].cpartition,
                dirname: writes[k].dirname@,
                path: writes[k].path@,
                create: writes[k].create,
                rows: chunk_rows(writes[k].chunk@),
            },
    )
}

/// Where a producer writes to, and which of its files it has written to.
pub struct WriterState {
    pub temp_dir: Seq<char>,
    pub flow_id: usize,
    pub stage_link: StageLink,
    pub producer: PartitionId,
    pub writers: Seq<bool>,
}

/// The write of the rows `rows` for consumer partition `c`.
pub open spec fn write_for(w: WriterState, c: PartitionId, rows: Seq<Seq<DatumView>>) -> WriteView {
    WriteView {
        cpartition: c,
        dirname: partition_dir(w.temp_dir, w.flow_id, w.stage_link, c),
        path: spill_path(w.temp_dir, w.flow_id, w.stage_link, c, w.producer),
        create: !w.writers[c as int],
        rows,
    }
}

/// The writes of a producer for one chunk: for each consumer partition that
/// gets rows, in the order of the partitions, the write of its rows.
pub open spec fn chunk_writes(w: WriterState, shares: Seq<(PartitionId, Seq<Seq<DatumView>>)>) -> Seq<WriteView> {
    Seq::new(shares.len(), |k: int| write_for(w, shares[k].0, shares[k].1))
}

/// Which files have been written to after a chunk.
pub open spec fn writers_after(writers: Seq<bool>, rows: Seq<Seq<DatumView>>, parts: Seq<u64>) -> Seq<bool> {
    Seq::new(writers.len(), |c: int| writers[c] || filtered(rows, share_mask(parts, c)).len() > 0)
}

/// The writes that a producer has asked for, and the files it has written
/// to.
pub type Written = (Seq<WriteView>, Seq<bool>);

/// A chunk repartitioned by the write side of a shuffle: the writes it
/// leads to come after those asked for before.
pub open spec fn writing(rpw: &RepartitionWrite, props: POPPropsView, w: WriterState) -> spec_fn(Written, ChunkView) -> Result<
    Written,
    Seq<char>,
> {
    |st: Written, c: ChunkView|
        match repartition_fault(rpw, props, c) {
            Some(e) => Err(e),
            None => {
                let parts = row_partitions(code_views(rpw.repart_key@), c, rpw.cpartitions);
                let rows = chunk_rows(applied(props, c));
                Ok(
                    (
                        st.0 + chunk_writes(WriterState { writers: st.1, ..w }, shares(rows, parts, rpw.cpartitions as int)),
                        writers_after(st.1, rows, parts),
                    ),
                )
            },
        }
}

/// The rows that a list of writes holds for consumer partition `c`, in the
/// order of the writes.
pub open spec fn written_for(writes: Seq<WriteView>, c: int) -> Seq<Seq<DatumView>>
    decreases writes.len(),
{
    if writes.len() == 0 {
        Seq::empty()
    } else if writes.last().cpartition == c {
        written_for(writes.drop_last(), c) + writes.last().rows
    } else {
        written_for(writes.drop_last(), c)
    }
}

/// The rows of a chunk that the write side of a shuffle assigns to consumer
/// partition `c`: the rows, as the properties of the operator shape them,
/// whose keys hash to `c` modulo the number of consumer partitions.
pub open spec fn assigned(rpw: &RepartitionWrite, props: POPPropsView, chunk: ChunkView, c: int) -> Seq<Seq<DatumView>> {
    filtered(
        chunk_rows(applied(props, chunk)),
        share_mask(row_partitions(code_views(rpw.repart_key@), chunk, rpw.cpartitions), c),
    )
}

/// The rows of a list of chunks that the write side of a shuffle assigns to
/// consumer partition `c`, chunk after chunk.
pub open spec fn assigned_all(rpw: &RepartitionWrite, props: POPPropsView, chunks: Seq<ChunkView>, c: int) -> Seq<
    Seq<DatumView>,
>
    decreases chunks.len(),
{
    if chunks.len() == 0 {
        Seq::empty()
    } else {
        assigned(rpw, props, chunks[0], c) + assigned_all(rpw, props, chunks.skip(1), c)
    }
}

/// The rows that the writes of two producers hold for a consumer
/// partition, one after the other, are the rows of the first followed by
/// those of the second.
pub proof fn lemma_written_for_concat(a: Seq<WriteView>, b: Seq<WriteView>, c: int)
    ensures
        written_for(a + b, c) == written_for(a, c) + written_for(b, c),
    decreases b.len(),
{
    if b.len() == 0 {
        assert(a + b =~= a);
        assert(written_for(a, c) + written_for(b, c) =~= written_for(a, c));
    } else {
        lemma_written_for_concat(a, b.drop_last(), c);
        assert((a + b).drop_last() =~= a + b.drop_last());
        assert((a + b).last() == b.last());
        if b.last().cpartition == c {
            assert(written_for(a + b, c) =~= written_for(a, c) + written_for(b, c));
        }
    }
}

/// The writes for one chunk hold, for a consumer partition below `upto`,
/// the rows assigned to it, and for any other none.
proof fn lemma_chunk_writes_hold(w: WriterState, rows: Seq<Seq<DatumView>>, parts: Seq<u64>, upto: int, c: int)
    requires
        0 <= c,
        upto <= usize::MAX,
    ensures
        written_for(chunk_writes(w, shares(rows, parts, upto)), c) == if c < upto {
            filtered(rows, share_mask(parts, c))
        } else {
            Seq::empty()
        },
    decreases upto,
{
    if upto > 0 {
        lemma_chunk_writes_hold(w, rows, parts, upto - 1, c);
        let before = shares(rows, parts, upto - 1);
        let share = filtered(rows, share_mask(parts, upto - 1));
        if share.len() > 0 {
            let now = chunk_writes(w, shares(rows, parts, upto));
            assert(now.drop_last() =~= chunk_writes(w, before));
            assert(now.last() == write_for(w, (upto - 1) as usize, share));
            if upto - 1 == c {
                assert(written_for(now, c) =~= share);
            }
        } else if upto - 1 == c {
            assert(filtered(rows, share_mask(parts, c)) =~= Seq::<Seq<DatumView>>::empty());
        }
    }
}

/// What the write side of a shuffle writes for a consumer partition over
/// its whole input: after the rows written for the partition before, of
/// every chunk of the input, in order, exactly the rows whose keys hash to
/// the partition modulo the number of consumer partitions. No row is
/// written twice or left out, and none goes to another partition.
pub proof fn lemma_writes_sound(
    rpw: &RepartitionWrite,
    props: POPPropsView,
    w: WriterState,
    st: Written,
    input: Outcome,
    c: int,
)
    requires
        0 <= c < rpw.cpartitions,
        write_future(props, rpw, w, st, input) is Ok,
    ensures
        write_future(props, rpw, w, st, input) matches Ok(end) && written_for(end.0, c) == written_for(st.0, c)
            + assigned_all(rpw, props, input.chunks, c),
    decreases input.chunks.len(),
{
    let step = writing(rpw, props, w);
    if input.chunks.len() == 0 {
        assert(written_for(st.0, c) + assigned_all(rpw, props, input.chunks, c) =~= written_for(st.0, c));
    } else {
        let chunk = input.chunks[0];
        let next = match step(st, chunk) {
            Ok(next) => next,
            Err(_) => st,
        };
        lemma_writes_sound(rpw, props, w, next, rest(input), c);
        let parts = row_partitions(code_views(rpw.repart_key@), chunk, rpw.cpartitions);
        let rows = chunk_rows(applied(props, chunk));
        let fresh = chunk_writes(WriterState { writers: st.1, ..w }, shares(rows, parts, rpw.cpartitions as int));
        lemma_chunk_writes_hold(WriterState { writers: st.1, ..w }, rows, parts, rpw.cpartitions as int, c);
        lemma_written_for_concat(st.0, fresh, c);
        assert(written_for(next.0, c) == written_for(st.0, c) + assigned(rpw, props, chunk, c));
        assert(written_for(st.0, c) + assigned_all(rpw, props, input.chunks, c) =~= written_for(next.0, c) + assigned_all(
            rpw,
            props,
            rest(input).chunks,
            c,
        ));
    }
}

/// All rows of the chunks of a stream, in order.
pub open spec fn stream_rows(chunks: Seq<ChunkView>) -> Seq<Seq<DatumView>>
    decreases chunks.len(),
{
    if chunks.len() == 0 {
        Seq::empty()
    } else {
        chunk_rows(chunks[0]) + stream_rows(chunks.skip(1))
    }
}

/// The batches of rows that a list of writes holds for consumer partition
/// `c`, one for each write for the partition, in the order of the writes.
pub open spec fn spilled(writes: Seq<WriteView>, c: int) -> Seq<Seq<Seq<DatumView>>>
    decreases writes.len(),
{
    if writes.len() == 0 {
        Seq::empty()
    } else if writes.last().cpartition == c {
        spilled(writes.drop_last(), c).push(writes.last().rows)
    } else {
        spilled(writes.drop_last(), c)
    }
}

/// The rows of the chunks read for a leaf from position `position` on.
proof fn lemma_raw_rows(chunks: Seq<Chunk>, position: int)
    requires
        0 <= position <= chunks.len(),
        forall|i: int| position <= i < chunks.len() ==> rectangular(#[trigger] chunks[i]@),
    ensures
        raw(chunks, position).fault is None,
        stream_rows(raw(chunks, position).chunks) == stream_rows(pending(chunks, position).chunks),
    decreases chunks.len() - position,
{
    let here = pending(chunks, position);
    if position < chunks.len() {
        lemma_raw_rows(chunks, position + 1);
        assert(here.chunks[0] == chunks[position]@);
        assert(rest(here).chunks =~= pending(chunks, position + 1).chunks);
        assert(rest(here) == pending(chunks, position + 1));
        let later = raw(chunks, position + 1);
        if rows_of(chunks[position]@) > 0 {
            assert(raw(chunks, position).chunks.skip(1) =~= later.chunks);
        } else {
            assert(chunk_rows(chunks[position]@) =~= Seq::<Seq<DatumView>>::empty());
            assert(stream_rows(here.chunks) =~= stream_rows(later.chunks));
        }
    }
}

/// The rows of the writes for a partition are the rows of its batches.
proof fn lemma_spilled_rows(writes: Seq<WriteView>, c: int, batches: Seq<ChunkView>)
    requires
        batches.len() == spilled(writes, c).len(),
        forall|k: int| 0 <= k < batches.len() ==> chunk_rows(#[trigger] batches[k]) == spilled(writes, c)[k],
    ensures
        stream_rows(batches) == written_for(writes, c),
    decreases writes.len(),
{
    if writes.len() == 0 {
    } else if writes.last().cpartition == c {
        let front = batches.drop_last();
        assert forall|k: int| 0 <= k < front.len() implies chunk_rows(#[trigger] front[k]) == spilled(
            writes.drop_last(),
            c,
        )[k] by {
            assert(front[k] == batches[k]);
            assert(spilled(writes, c)[k] == spilled(writes.drop_last(), c)[k]);
        }
        lemma_spilled_rows(writes.drop_last(), c, front);
        assert(chunk_rows(batches.last()) == writes.last().rows) by {
            assert(spilled(writes, c)[batches.len() - 1] == writes.last().rows);
        }
        lemma_stream_rows_last(batches);
    } else {
        lemma_spilled_rows(writes.drop_last(), c, batches);
    }
}

/// The rows of a list of chunks end with the rows of its last chunk.
proof fn lemma_stream_rows_last(chunks: Seq<ChunkView>)
    requires
        chunks.len() > 0,
    ensures
        stream_rows(chunks) == stream_rows(chunks.drop_last()) + chunk_rows(chunks.last()),
    decreases chunks.len(),
{
    if chunks.len() == 1 {
        assert(chunks.skip(1) =~= Seq::<ChunkView>::empty());
        assert(chunks.drop_last() =~= Seq::<ChunkView>::empty());
        assert(stream_rows(chunks.skip(1)) =~= Seq::<Seq<DatumView>>::empty());
        assert(stream_rows(chunks.drop_last()) =~= Seq::<Seq<DatumView>>::empty());
        assert(stream_rows(chunks) =~= chunk_rows(chunks[0]));
        assert(stream_rows(chunks.drop_last()) + chunk_rows(chunks.last()) =~= chunk_rows(chunks[0]));
    } else {
        lemma_stream_rows_last(chunks.skip(1));
        assert(chunks.skip(1).drop_last() =~= chunks.drop_last().skip(1));
        assert(chunks.drop_last()[0] == chunks[0]);
        assert(stream_rows(chunks) =~= stream_rows(chunks.drop_last()) + chunk_rows(chunks.last()));
    }
}

/// What a consumer partition reads is what was written for it: where the
/// chunks read for partition `c` hold, one after the other, what the
/// writes for `c` wrote, the read side hands on exactly the rows written
/// for `c`, in order, and does not fail. With no write for `c` it hands on
/// nothing.
pub proof fn lemma_reads_what_was_written(chunks: Seq<Chunk>, writes: Seq<WriteView>, c: int)
    requires
        chunks.len() == spilled(writes, c).len(),
        forall|k: int| 0 <= k < chunks.len() ==> (#[trigger] chunks[k]).wf() && chunk_rows(chunks[k]@) == spilled(writes, c)[k],
    ensures
        raw(chunks, 0).fault is None,
        stream_rows(raw(chunks, 0).chunks) == written_for(writes, c),
{
    lemma_raw_rows(chunks, 0);
    lemma_spilled_rows(writes, c, pending(chunks, 0).chunks);
}

/// Soundness of the write side over a whole input, where the operator hands
/// the rows on as they are: the rows assigned to consumer partition `c` are
/// exactly the rows of the input whose keys hash to `c` modulo the number
/// of consumer partitions, in the order of the input and as often as they
/// occur in it.
pub proof fn lemma_assigned_is_partition(rpw: &RepartitionWrite, props: POPPropsView, chunks: Seq<ChunkView>, c: int)
    requires
        0 <= c < rpw.cpartitions,
        forall|i: int| 0 <= i < chunks.len() ==> applied(props, #[trigger] chunks[i]) == chunks[i],
    ensures
        assigned_all(rpw, props, chunks, c) == stream_rows(chunks).filter(
            |r: Seq<DatumView>| partition_of(code_views(rpw.repart_key@), r, rpw.cpartitions) == c,
        ),
        forall|row: Seq<DatumView>|
            #![trigger assigned_all(rpw, props, chunks, c).to_multiset().count(row)]
            assigned_all(rpw, props, chunks, c).to_multiset().count(row) == if partition_of(
                code_views(rpw.repart_key@),
                row,
                rpw.cpartitions,
            ) == c {
                stream_rows(chunks).to_multiset().count(row)
            } else {
                0
            },
    decreases chunks.len(),
{
    let keys = code_views(rpw.repart_key@);
    let pred = |r: Seq<DatumView>| partition_of(keys, r, rpw.cpartitions) == c;
    if chunks.len() == 0 {
        reveal(Seq::filter);
    } else {
        let later = chunks.skip(1);
        assert forall|i: int| 0 <= i < later.len() implies applied(props, #[trigger] later[i]) == later[i] by {
            assert(later[i] == chunks[i + 1]);
        }
        lemma_assigned_is_partition(rpw, props, later, c);
        let rows = chunk_rows(chunks[0]);
        let mask = share_mask(row_partitions(keys, chunks[0], rpw.cpartitions), c);
        assert forall|i: int| 0 <= i < rows.len() implies #[trigger] mask[i] == pred(rows[i]) by {
            let p = partition_of(keys, rows[i], rpw.cpartitions);
            assert(0 <= p < rpw.cpartitions) by (nonlinear_arith)
                requires
                    p == row_hash(key_row(keys, rows[i])) as int % rpw.cpartitions as int,
                    rpw.cpartitions > 0,
            ;
        }
        lemma_filtered_is_filter(rows, mask, pred);
        Seq::filter_distributes_over_add(rows, stream_rows(later), pred);
    }
    assert forall|row: Seq<DatumView>|
        #![trigger assigned_all(rpw, props, chunks, c).to_multiset().count(row)]
        assigned_all(rpw, props, chunks, c).to_multiset().count(row) == if partition_of(keys, row, rpw.cpartitions)
            == c {
            stream_rows(chunks).to_multiset().count(row)
        } else {
            0
        } by {
        lemma_filter_count(stream_rows(chunks), pred, row);
    }
}

/// What the rows of a list of chunks give to an aggregation, row after
/// row.
pub open spec fn stream_entries(agg: AggregationView, chunks: Seq<ChunkView>) -> Seq<Entry>
    decreases chunks.len(),
{
    if chunks.len() == 0 {
        Seq::empty()
    } else {
        entries_of(agg, chunks[0], rows_of(chunks[0])) + stream_entries(agg, chunks.skip(1))
    }
}

/// The groups of an aggregation over its whole input: where the input is
/// taken in without a fault, the groups are those of all its rows, row
/// after row, however the rows are cut into chunks. With the laws on
/// groups this makes the result of an aggregation depend only on which
/// rows its input holds and how often, not on their order.
pub proof fn lemma_grouping_takes_all_rows(agg: AggregationView, st: Grouping, input: Outcome)
    requires
        drained(grouping(agg), st, input) is Ok,
    ensures
        drained(grouping(agg), st, input) matches Ok(end) && end.0 == absorb_all(st.0, stream_entries(agg, input.chunks)),
    decreases input.chunks.len(),
{
    let step = grouping(agg);
    if input.chunks.len() == 0 {
    } else {
        let chunk = input.chunks[0];
        let next = match step(st, chunk) {
            Ok(next) => next,
            Err(_) => st,
        };
        lemma_grouping_takes_all_rows(agg, next, rest(input));
        lemma_absorb_rows(st.0, agg, chunk, rows_of(chunk));
        lemma_absorb_all_concat(st.0, entries_of(agg, chunk, rows_of(chunk)), stream_entries(agg, rest(input).chunks));
    }
}

/// Number of rows that are assigned to a partition below `upto`.
pub open spec fn count_below(parts: Seq<u64>, upto: int) -> nat
    decreases parts.len(),
{
    if parts.len() == 0 {
        0
    } else {
        count_below(parts.drop_last(), upto) + if parts.last() < upto {
            1nat
        } else {
            0nat
        }
    }
}

/// Number of rows of a list of chunks that the write side of a shuffle
/// assigns to the consumer partitions below `upto`, all together.
pub open spec fn assigned_count(rpw: &RepartitionWrite, props: POPPropsView, chunks: Seq<ChunkView>, upto: int) -> nat
    decreases upto,
{
    if upto <= 0 {
        0
    } else {
        assigned_count(rpw, props, chunks, upto - 1) + assigned_all(rpw, props, chunks, upto - 1).len()
    }
}

/// The rows assigned to partition `c` are as many as the rows assigned
/// below `c + 1` but not below `c`.
proof fn lemma_count_below_step(parts: Seq<u64>, c: int)
    requires
        0 <= c,
    ensures
        count_below(parts, c + 1) == count_below(parts, c) + count_true(share_mask(parts, c)),
    decreases parts.len(),
{
    if parts.len() > 0 {
        lemma_count_below_step(parts.drop_last(), c);
        assert(share_mask(parts, c).drop_last() =~= share_mask(parts.drop_last(), c));
        assert(share_mask(parts, c).last() == (parts.last() == c));
    } else {
        assert(share_mask(parts, c) =~= Seq::<bool>::empty());
    }
}

/// No row is assigned below partition 0.
proof fn lemma_count_below_zero(parts: Seq<u64>)
    ensures
        count_below(parts, 0) == 0,
    decreases parts.len(),
{
    if parts.len() > 0 {
        lemma_count_below_zero(parts.drop_last());
    }
}

/// Rows whose partitions are all below `upto` are all counted.
proof fn lemma_count_below_all(parts: Seq<u64>, upto: int)
    requires
        forall|i: int| 0 <= i < parts.len() ==> parts[i] < upto,
    ensures
        count_below(parts, upto) == parts.len(),
    decreases parts.len(),
{
    if parts.len() > 0 {
        lemma_count_below_all(parts.drop_last(), upto);
    }
}

/// Of one chunk, the partitions below `upto` get as many rows as are
/// assigned below `upto`; of several chunks, the sum of that.
proof fn lemma_assigned_count(rpw: &RepartitionWrite, props: POPPropsView, chunks: Seq<ChunkView>, upto: int)
    requires
        0 <= upto,
        forall|i: int| 0 <= i < chunks.len() ==> rows_of(applied(props, #[trigger] chunks[i])) == rows_of(chunks[i]),
    ensures
        assigned_count(rpw, props, chunks, upto) == if chunks.len() == 0 {
            0
        } else {
            count_below(row_partitions(code_views(rpw.repart_key@), chunks[0], rpw.cpartitions), upto) + assigned_count(
                rpw,
                props,
                chunks.skip(1),
                upto,
            )
        },
    decreases upto,
{
    if upto > 0 {
        lemma_assigned_count(rpw, props, chunks, upto - 1);
        if chunks.len() > 0 {
            let parts = row_partitions(code_views(rpw.repart_key@), chunks[0], rpw.cpartitions);
            lemma_count_below_step(parts, upto - 1);
            lemma_filtered_len(chunk_rows(applied(props, chunks[0])), share_mask(parts, upto - 1));
        }
    } else if chunks.len() > 0 {
        let parts = row_partitions(code_views(rpw.repart_key@), chunks[0], rpw.cpartitions);
        lemma_count_below_zero(parts);
    }
}

/// Every row goes to exactly one consumer partition: over a whole input
/// that the write side can repartition, the rows assigned to the consumer
/// partitions are, all together, as many as the rows of the input. As each
/// partition gets the rows whose keys hash to it and no others, no row is
/// lost and none is written for two partitions.
pub proof fn lemma_every_row_is_assigned(rpw: &RepartitionWrite, props: POPPropsView, chunks: Seq<ChunkView>)
    requires
        forall|i: int| 0 <= i < chunks.len() ==> repartition_fault(rpw, props, #[trigger] chunks[i]) is None,
    ensures
        assigned_count(rpw, props, chunks, rpw.cpartitions as int) == stream_rows(chunks).len(),
    decreases chunks.len(),
{
    let later = chunks.skip(1);
    if chunks.len() == 0 {
        lemma_assigned_count(rpw, props, chunks, rpw.cpartitions as int);
    } else {
        assert forall|i: int| 0 <= i < later.len() implies repartition_fault(rpw, props, #[trigger] later[i]) is None by {
            assert(later[i] == chunks[i + 1]);
        }
        lemma_every_row_is_assigned(rpw, props, later);
        lemma_assigned_count(rpw, props, chunks, rpw.cpartitions as int);
        let keys = code_views(rpw.repart_key@);
        let parts = row_partitions(keys, chunks[0], rpw.cpartitions);
        assert(repartition_fault(rpw, props, chunks[0]) is None);
        assert forall|i: int| 0 <= i < parts.len() implies parts[i] < rpw.cpartitions by {
            let p = partition_of(keys, row_of(chunks[0], i), rpw.cpartitions);
            assert(0 <= p < rpw.cpartitions) by (nonlinear_arith)
                requires
                    p == row_hash(key_row(keys, row_of(chunks[0], i))) as int % rpw.cpartitions as int,
                    rpw.cpartitions > 0,
            ;
        }
        lemma_count_below_all(parts, rpw.cpartitions as int);
    }
}

/// Every row gives an aggregation one number for each aggregate.
proof fn lemma_stream_entries_shape(agg: AggregationView, chunks: Seq<ChunkView>)
    ensures
        forall|e: int|
            0 <= e < stream_entries(agg, chunks).len() ==> (#[trigger] stream_entries(agg, chunks)[e]).1.len()
                == agg.args.len(),
    decreases chunks.len(),
{
    if chunks.len() > 0 {
        lemma_stream_entries_shape(agg, chunks.skip(1));
        let first = entries_of(agg, chunks[0], rows_of(chunks[0]));
        assert forall|e: int| 0 <= e < stream_entries(agg, chunks).len() implies (#[trigger] stream_entries(
            agg,
            chunks,
        )[e]).1.len() == agg.args.len() by {
            if e < first.len() {
                assert(stream_entries(agg, chunks)[e] == first[e]);
            } else {
                assert(stream_entries(agg, chunks)[e] == stream_entries(agg, chunks.skip(1))[e - first.len()]);
            }
        }
    }
}

/// Commutativity of an aggregation over its whole input: two inputs whose
/// rows give the aggregation the same keys and numbers, each as often in
/// one as in the other, in whatever order and however cut into chunks, lead
/// to the same group for every key: the same count, sum, least and
/// greatest value. A key has a group after one input exactly if it has one
/// after the other.
pub proof fn lemma_aggregation_commutes(agg: AggregationView, a: Outcome, b: Outcome, key: Seq<DatumView>)
    requires
        drained(grouping(agg), (Seq::empty(), 0), a) is Ok,
        drained(grouping(agg), (Seq::empty(), 0), b) is Ok,
        stream_entries(agg, a.chunks).to_multiset() == stream_entries(agg, b.chunks).to_multiset(),
    ensures
        drained(grouping(agg), (Seq::empty(), 0), a) matches Ok(ga) && drained(
            grouping(agg),
            (Seq::empty(), 0),
            b,
        ) matches Ok(gb) && match (group_position(ga.0, key), group_position(gb.0, key)) {
            (Some(g), Some(h)) => ga.0[g] == gb.0[h],
            (None, None) => true,
            _ => false,
        },
{
    lemma_grouping_takes_all_rows(agg, (Seq::empty(), 0), a);
    lemma_grouping_takes_all_rows(agg, (Seq::empty(), 0), b);
    lemma_stream_entries_shape(agg, a.chunks);
    lemma_groups_permutation(stream_entries(agg, a.chunks), stream_entries(agg, b.chunks), agg.args.len(), key);
}

/// The per-task state of a scan: the chunks parsed from the partition of
/// the file that the task reads, and how many of them have been handed on.
#[derive(Debug, PartialEq, Eq)]
pub struct ScanContext {
    pub pop_key: POPKey,
    pub partition_id: PartitionId,
    pub chunks: Vec<Chunk>,
    pub position: usize,
}

impl ScanContext {
    /// The state of a scan that has handed on nothing.
    pub fn new(pop_key: POPKey, partition_id: PartitionId, chunks: Vec<Chunk>) -> (ctx: Self)
        ensures
            ctx.pop_key == pop_key,
            ctx.partition_id == partition_id,
            ctx.chunks == chunks,
            ctx.position == 0,
    {
        ScanContext { pop_key, partition_id, chunks, position: 0 }
    }
}

/// The per-task state of an operator together with that of its inputs.
pub enum NodeRuntime<'a> {
    /// An operator that cannot run: it is not in the plan, lacks an input,
    /// or stands where it must not.
    Broken { text: String },
    /// The scan of a file.
    Scan { props: &'a POPProps, scan: ScanContext },
    /// The read side of a shuffle.
    Read { props: &'a POPProps, reader: RepartitionReadContext },
    /// A hash join. Its build side is complete once `built` is set.
    Join {
        props: &'a POPProps,
        join: &'a HashJoin,
        table: HashJoinContext,
        built: bool,
        left: Box<NodeRuntime<'a>>,
        right: Box<NodeRuntime<'a>>,
    },
    /// An aggregation.
    Agg { props: &'a POPProps, agg: &'a Aggregation, groups: AggregationContext, child: Box<NodeRuntime<'a>> },
    /// The write side of a shuffle, with the writes it has asked for and,
    /// once `done`, the files to close.
    Write {
        props: &'a POPProps,
        rpw: &'a RepartitionWrite,
        writer: RepartitionWriteContext,
        child: Box<NodeRuntime<'a>>,
        temp_dir: &'a str,
        flow_id: usize,
        writes: Vec<FileWrite>,
        closed: Vec<String>,
        done: bool,
    },
}

/// Where the write side of a shuffle writes to.
pub open spec fn writer_of(rpw: &RepartitionWrite, ctx: &RepartitionWriteContext, temp_dir: &str, flow_id: usize) -> WriterState {
    WriterState {
        temp_dir: temp_dir@,
        flow_id,
        stage_link: rpw.stage_link,
        producer: ctx.partition_id,
        writers: Seq::empty(),
    }
}

/// The writes that the write side of a shuffle will have asked for, and the
/// files it will have written to, when its input is at its end.
pub open spec fn write_future(
    props: POPPropsView,
    rpw: &RepartitionWrite,
    w: WriterState,
    st: Written,
    child: Outcome,
) -> Result<Written, Seq<char>> {
    drained(writing(rpw, props, w), st, child)
}

/// What a join will hand on: once its build side is complete, every chunk
/// of its right input joined with the build side; before that, the same
/// after the left input has been taken in whole.
pub open spec fn join_future(
    props: POPPropsView,
    join: &HashJoin,
    st: BuildState,
    built: bool,
    left: Outcome,
    right: Outcome,
) -> Outcome {
    let complete = if built {
        Ok(st)
    } else {
        drained(building(code_views(join.left_keys@)), st, left)
    };
    match complete {
        Err(e) => failed(e),
        Ok(all) => mapped(probing(code_views(join.right_keys@), all, props), right),
    }
}

/// What an aggregation will hand on: nothing once it has handed on its
/// result; before that, after its input has been taken in whole, the one
/// chunk of its result, unless that has no rows.
pub open spec fn agg_future(props: POPPropsView, agg: &Aggregation, st: Grouping, done: bool, child: Outcome) -> Outcome {
    if done {
        ended()
    } else {
        match drained(grouping(agg@), st, child) {
            Err(e) => failed(e),
            Ok((groups, _)) => if result_fits(groups, agg.keys@.len(), agg.kinds@) {
                mapped(
                    shaped(props),
                    Outcome { chunks: seq![result_columns(groups, agg.keys@.len(), agg.kinds@)], fault: None },
                )
            } else {
                failed(result_text())
            },
        }
    }
}

impl<'a> NodeRuntime<'a> {
    /// The states of all operators are well formed.
    pub open spec fn wf(&self) -> bool
        decreases self,
    {
        match self {
            NodeRuntime::Broken { .. } => true,
            NodeRuntime::Scan { scan: ctx, .. } => ctx.position <= ctx.chunks@.len(),
            NodeRuntime::Read { reader: ctx, .. } => ctx.position <= ctx.chunks@.len(),
            NodeRuntime::Join { table: ctx, left, right, .. } => ctx.wf() && left.wf() && right.wf(),
            NodeRuntime::Agg { agg, groups: ctx, child, .. } => {
                &&& ctx.wf(agg.args@.len())
                &&& ctx.keyed(agg.keys@.len())
                &&& ctx.groups@.len() > 0 ==> agg.kinds@.len() == agg.args@.len()
                &&& child.wf()
            },
            NodeRuntime::Write { rpw, writer: ctx, child, temp_dir, flow_id, closed, done, .. } => {
                &&& ctx.writers@.len() == rpw.cpartitions
                &&& child.wf()
                &&& *done ==> string_paths(closed@) == open_paths(
                    temp_dir@,
                    *flow_id,
                    rpw.stage_link,
                    ctx.partition_id,
                    ctx.writers@,
                    rpw.cpartitions as int,
                )
            },
        }
    }

    /// Number of operators on the longest way down to a leaf.
    pub open spec fn depth(&self) -> nat
        decreases self,
    {
        match self {
            NodeRuntime::Broken { .. } => 0,
            NodeRuntime::Scan { .. } => 0,
            NodeRuntime::Read { .. } => 0,
            NodeRuntime::Join { left, right, .. } => if left.depth() >= right.depth() {
                left.depth() + 1
            } else {
                right.depth() + 1
            },
            NodeRuntime::Agg { child, .. } => child.depth() + 1,
            NodeRuntime::Write { child, .. } => child.depth() + 1,
        }
    }

    /// What the operator will hand on from now on.
    pub open spec fn future(&self) -> Outcome
        decreases self,
    {
        match self {
            NodeRuntime::Broken { text } => failed(text@),
            NodeRuntime::Scan { props, scan: ctx } => mapped(shaped(props@), raw(ctx.chunks@, ctx.position as int)),
            NodeRuntime::Read { props, reader: ctx } => mapped(shaped(props@), raw(ctx.chunks@, ctx.position as int)),
            NodeRuntime::Join { props, join, table: ctx, built, left, right } => join_future(
                props@,
                *join,
                ctx.state(),
                *built,
                left.future(),
                right.future(),
            ),
            NodeRuntime::Agg { props, agg, groups: ctx, child } => agg_future(
                props@,
                *agg,
                (group_views(ctx.groups@), ctx.rows_seen as nat),
                ctx.done,
                child.future(),
            ),
            NodeRuntime::Write { props, rpw, writer: ctx, child, temp_dir, flow_id, writes, done, .. } => if *done {
                ended()
            } else {
                match write_future(
                    props@,
                    *rpw,
                    writer_of(*rpw, ctx, *temp_dir, *flow_id),
                    (full_views(writes@), ctx.writers@),
                    child.future(),
                ) {
                    Err(e) => failed(e),
                    Ok(_) => ended(),
                }
            },
        }
    }

    /// Whether this is the write side of a shuffle.
    pub open spec fn writes(&self) -> bool {
        self is Write
    }

    /// Whether this is the write side of a shuffle that has taken in its
    /// input whole.
    pub open spec fn finished(&self) -> bool {
        match self {
            NodeRuntime::Write { done, .. } => *done,
            _ => false,
        }
    }

    /// What the operator will have asked for besides the chunks it hands
    /// on, when its stream is at its end: the write side of a shuffle the
    /// writes to spill files and the files to close, any other operator
    /// nothing.
    pub open spec fn outputs(&self) -> Result<(Seq<WriteView>, Seq<Seq<char>>), Seq<char>> {
        match self {
            NodeRuntime::Write { props, rpw, writer: ctx, child, temp_dir, flow_id, writes, closed, done } => if *done {
                Ok((full_views(writes@), string_paths(closed@)))
            } else {
                match write_future(
                    props@,
                    *rpw,
                    writer_of(*rpw, ctx, *temp_dir, *flow_id),
                    (full_views(writes@), ctx.writers@),
                    child.future(),
                ) {
                    Err(e) => Err(e),
                    Ok((asked, writers)) => Ok(
                        (
                            asked,
                            open_paths(
                                temp_dir@,
                                *flow_id,
                                rpw.stage_link,
                                ctx.partition_id,
                                writers,
                                rpw.cpartitions as int,
                            ),
                        ),
                    ),
                }
            },
            _ => Ok((Seq::empty(), Seq::empty())),
        }
    }
}

/// The next chunk of a leaf, shaped by the properties of the leaf.
fn next_leaf(props: &POPProps, chunks: &Vec<Chunk>, position: &mut usize) -> (res: Result<Chunk, String>)
    requires
        *old(position) <= chunks@.len(),
    ensures
        *final(position) <= chunks@.len(),
        delivers(
            mapped(shaped(props@), raw(chunks@, *old(position) as int)),
            res,
            mapped(shaped(props@), raw(chunks@, *final(position) as int)),
        ),
{
    let ghost f = shaped(props@);
    let ghost before = mapped(f, raw(chunks@, *position as int));
    let mut result: Option<Result<Chunk, String>> = None;
    while result.is_none()
        invariant
            *position <= chunks@.len(),
            f == shaped(props@),
            before == mapped(f, raw(chunks@, *old(position) as int)),
            match result {
                None => mapped(f, raw(chunks@, *position as int)) == before,
                Some(res) => delivers(before, res, mapped(f, raw(chunks@, *position as int))),
            },
        decreases
                (if result is None {
                    raw(chunks@, *position as int).chunks.len() + 1
                } else {
                    0
                }),
    {
        let ghost input = raw(chunks@, *position as int);
        match next_raw(chunks, position) {
            Err(e) => {
                result = Some(Err(e));
            },
            Ok(chunk) => {
                if chunk.len() == 0 {
                    result = Some(Ok(Chunk::empty()));
                } else {
                    proof {
                        lemma_mapped_first(f, input);
                    }
                    match props.apply(&chunk) {
                        Err(e) => {
                            result = Some(Err(e));
                        },
                        Ok(out) => {
                            if out.len() > 0 {
                                proof {
                                    let later = mapped(f, rest(input));
                                    assert(rest(before).chunks =~= later.chunks);
                                }
                                result = Some(Ok(out));
                            }
                        },
                    }
                }
            },
        }
    }
    result.unwrap()
}

impl<'a> NodeRuntime<'a> {
    /// The next chunk that the operator hands on: a chunk with rows, or the
    /// chunk without rows when its stream is at its end. The operator
    /// pulls from its inputs what it needs. A join first takes in its left
    /// input whole, then hands on what each chunk of its right input gives
    /// against it. An aggregation takes in its input whole and hands on its
    /// result. A fault of an input, or of the operator's own work, comes
    /// when everything before it has been handed on.
    pub fn next(&mut self) -> (res: Result<Chunk, String>)
        requires
            old(self).wf(),
        ensures
            final(self).wf(),
            final(self).depth() == old(self).depth(),
            final(self).writes() == old(self).writes(),
            delivers(old(self).future(), res, final(self).future()),
            res is Ok ==> final(self).outputs() == old(self).outputs(),
            res is Ok && old(self).writes() ==> final(self).finished(),
        decreases old(self).depth(),
    {
        match self {
            NodeRuntime::Broken { text } => Err(text.clone()),
            NodeRuntime::Scan { props, scan: ctx } => next_leaf(*props, &ctx.chunks, &mut ctx.position),
            NodeRuntime::Read { props, reader: ctx } => next_leaf(*props, &ctx.chunks, &mut ctx.position),
            NodeRuntime::Join { props, join, table: ctx, built, left, right } => {
                let ghost before = join_future(props@, *join, ctx.state(), *built, left.future(), right.future());
                let ghost lkeys = code_views(join.left_keys@);
                let ghost rkeys = code_views(join.right_keys@);
                let ghost right0 = right.future();
                let mut result: Option<Result<Chunk, String>> = None;
                // Build phase: drain the left input.
                while !*built && result.is_none()
                    invariant
                        ctx.wf(),
                        left.wf(),
                        right.wf(),
                        lkeys == code_views(join.left_keys@),
                        rkeys == code_views(join.right_keys@),
                        right.future() == right0,
                        left.depth() < old(self).depth(),
                        right.depth() < old(self).depth(),
                        (if left.depth() >= right.depth() {
                            left.depth() + 1
                        } else {
                            right.depth() + 1
                        }) == old(self).depth(),
                        match result {
                            None => join_future(props@, *join, ctx.state(), *built, left.future(), right0) == before,
                            Some(res) => res is Err && delivers(before, res, ended()),
                        },
                    decreases
                            (if !*built && result is None {
                                left.future().chunks.len() + 1
                            } else {
                                0
                            }),
                {
                    let ghost input = left.future();
                    let ghost st = ctx.state();
                    match left.next() {
                        Err(e) => {
                            result = Some(Err(e));
                        },
                        Ok(chunk) => {
                            if chunk.len() == 0 {
                                *built = true;
                            } else {
                                proof {
                                    lemma_drained_first(building(lkeys), st, input);
                                }
                                match ctx.build(*join, &chunk) {
                                    Ok(_) => {},
                                    Err(e) => {
                                        result = Some(Err(e));
                                    },
                                }
                            }
                        },
                    }
                }
                // Probe phase: one chunk of the right input after the other.
                let ghost f = probing(rkeys, ctx.state(), props@);
                while result.is_none()
                    invariant
                        ctx.wf(),
                        left.wf(),
                        right.wf(),
                        rkeys == code_views(join.right_keys@),
                        result is None ==> *built,
                        left.depth() < old(self).depth(),
                        right.depth() < old(self).depth(),
                        (if left.depth() >= right.depth() {
                            left.depth() + 1
                        } else {
                            right.depth() + 1
                        }) == old(self).depth(),
                        f == probing(rkeys, ctx.state(), props@),
                        match result {
                            None => mapped(f, right.future()) == before,
                            Some(res) => delivers(
                                before,
                                res,
                                join_future(props@, *join, ctx.state(), *built, left.future(), right.future()),
                            ),
                        },
                    decreases
                            (if result is None {
                                right.future().chunks.len() + 1
                            } else {
                                0
                            }),
                {
                    let ghost input = right.future();
                    match right.next() {
                        Err(e) => {
                            result = Some(Err(e));
                        },
                        Ok(chunk) => {
                            if chunk.len() == 0 {
                                result = Some(Ok(Chunk::empty()));
                            } else {
                                proof {
                                    lemma_mapped_first(f, input);
                                }
                                match ctx.probe(*join, &chunk) {
                                    Err(e) => {
                                        result = Some(Err(e));
                                    },
                                    Ok(joined) => match props.apply(&joined) {
                                        Err(e) => {
                                            result = Some(Err(e));
                                        },
                                        Ok(out) => {
                                            if out.len() > 0 {
                                                proof {
                                                    let later = mapped(f, rest(input));
                                                    assert(rest(before).chunks =~= later.chunks);
                                                }
                                                result = Some(Ok(out));
                                            }
                                        },
                                    },
                                }
                            }
                        },
                    }
                }
                result.unwrap()
            },
            NodeRuntime::Agg { props, agg, groups: ctx, child } => {
                let ghost before = agg_future(
                    props@,
                    *agg,
                    (group_views(ctx.groups@), ctx.rows_seen as nat),
                    ctx.done,
                    child.future(),
                );
                if ctx.done {
                    return Ok(Chunk::empty());
                }
                let mut result: Option<Result<Chunk, String>> = None;
                let mut at_end = false;
                // Drain the input.
                while !at_end && result.is_none()
                    invariant
                        ctx.wf(agg.args@.len()),
                        ctx.keyed(agg.keys@.len()),
                        ctx.groups@.len() > 0 ==> agg.kinds@.len() == agg.args@.len(),
                        child.wf(),
                        child.depth() + 1 == old(self).depth(),
                        !ctx.done,
                        at_end ==> child.future() == ended(),
                        match result {
                            None => agg_future(
                                props@,
                                *agg,
                                (group_views(ctx.groups@), ctx.rows_seen as nat),
                                false,
                                child.future(),
                            ) == before,
                            Some(res) => res is Err && delivers(before, res, ended()),
                        },
                    decreases
                            (if !at_end && result is None {
                                child.future().chunks.len() + 1
                            } else {
                                0
                            }),
                {
                    let ghost input = child.future();
                    let ghost st = (group_views(ctx.groups@), ctx.rows_seen as nat);
                    match child.next() {
                        Err(e) => {
                            result = Some(Err(e));
                        },
                        Ok(chunk) => {
                            if chunk.len() == 0 {
                                at_end = true;
                            } else {
                                proof {
                                    lemma_drained_first(grouping(agg@), st, input);
                                }
                                match ctx.update(*agg, &chunk) {
                                    Ok(_) => {},
                                    Err(e) => {
                                        result = Some(Err(e));
                                    },
                                }
                            }
                        },
                    }
                }
                if let Some(res) = result {
                    return res;
                }
                let ghost groups = group_views(ctx.groups@);
                let ghost whole = Outcome {
                    chunks: seq![result_columns(groups, agg.keys@.len(), agg.kinds@)],
                    fault: None,
                };
                match ctx.emit(*agg) {
                    Err(e) => Err(e),
                    Ok(chunk) => {
                        proof {
                            lemma_mapped_first(shaped(props@), whole);
                            assert(rest(whole).chunks =~= Seq::<ChunkView>::empty());
                        }
                        match props.apply(&chunk) {
                            Err(e) => Err(e),
                            Ok(out) => {
                                if out.len() > 0 {
                                    proof {
                                        assert(rest(before).chunks =~= Seq::<ChunkView>::empty());
                                    }
                                    Ok(out)
                                } else {
                                    Ok(Chunk::empty())
                                }
                            },
                        }
                    },
                }
            },
            NodeRuntime::Write { props, rpw, writer: ctx, child, temp_dir, flow_id, writes, closed, done } => {
                if *done {
                    return Ok(Chunk::empty());
                }
                let ghost w = writer_of(*rpw, ctx, *temp_dir, *flow_id);
                let ghost whole = write_future(props@, *rpw, w, (full_views(writes@), ctx.writers@), child.future());
                let mut result: Option<Result<Chunk, String>> = None;
                let mut at_end = false;
                while !at_end && result.is_none()
                    invariant
                        ctx.writers@.len() == rpw.cpartitions,
                        child.wf(),
                        child.depth() + 1 == old(self).depth(),
                        !*done,
                        w == writer_of(*rpw, ctx, *temp_dir, *flow_id),
                        at_end ==> child.future() == ended(),
                        match result {
                            None => write_future(props@, *rpw, w, (full_views(writes@), ctx.writers@), child.future())
                                == whole,
                            Some(res) => res matches Err(e) && whole == Err::<Written, Seq<char>>(e@),
                        },
                    decreases
                            (if !at_end && result is None {
                                child.future().chunks.len() + 1
                            } else {
                                0
                            }),
                {
                    let ghost input = child.future();
                    let ghost st = (full_views(writes@), ctx.writers@);
                    match child.next() {
                        Err(e) => {
                            result = Some(Err(e));
                        },
                        Ok(chunk) => {
                            if chunk.len() == 0 {
                                at_end = true;
                            } else {
                                proof {
                                    lemma_drained_first(writing(*rpw, props@, w), st, input);
                                }
                                let ghost before = writes@;
                                let ghost writers = ctx.writers@;
                                match ctx.next(*temp_dir, *flow_id, *rpw, *props, &chunk) {
                                    Ok(mut more) => {
                                        let ghost added = more@;
                                        writes.append(&mut more);
                                        proof {
                                            let parts = row_partitions(
                                                code_views(rpw.repart_key@),
                                                chunk@,
                                                rpw.cpartitions,
                                            );
                                            let rows = chunk_rows(applied(props@, chunk@));
                                            let sh = shares(rows, parts, rpw.cpartitions as int);
                                            let here = WriterState { writers, ..w };
                                            assert(full_views(added) =~= chunk_writes(here, sh)) by {
                                                assert forall|k: int| 0 <= k < added.len() implies full_views(
                                                    added,
                                                )[k] == chunk_writes(here, sh)[k] by {
                                                    assert(write_views(added)[k] == sh[k]);
                                                    assert(added[k].cpartition < rpw.cpartitions);
                                                }
                                            }
                                            assert(full_views(writes@) =~= full_views(before) + full_views(added));
                                            assert(ctx.writers@ =~= writers_after(writers, rows, parts));
                                        }
                                    },
                                    Err(e) => {
                                        result = Some(Err(e));
                                    },
                                }
                            }
                        },
                    }
                }
                if let Some(res) = result {
                    return res;
                }
                *closed = ctx.finish_writers(*temp_dir, *flow_id, *rpw);
                *done = true;
                Ok(Chunk::empty())
            },
        }
    }
}

impl<'a> POPContext for NodeRuntime<'a> {
    open spec fn valid(&self) -> bool {
        self.wf()
    }

    open spec fn stream(&self) -> Outcome {
        self.future()
    }

    fn next(&mut self) -> (res: Result<Chunk, String>) {
        NodeRuntime::next(self)
    }
}

} // verus!
