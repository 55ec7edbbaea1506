//! Running a task: the operators of a stage are set up on the chunks read
//! for the leaves of the stage, and the root is asked for chunk after chunk
//! until its stream is at its end.

use crate::chunk::Chunk;
use crate::flow::Flow;
use crate::includes::PartitionId;
use crate::pop::{POPGraph, POPKey, POP};
use crate::pop_aggregation::{group_views, AggregationContext, GroupView};
use crate::pop_context::{
    agg_future, assigned_all, failed, full_views, join_future, lemma_writes_sound, mapped, pending, raw, rest, shaped,
    write_future, written_for, ChunkView, NodeRuntime, Outcome, ScanContext, WriteView, WriterState,
};
use crate::pop_hashjoin::{build_start, HashJoinContext};
use crate::pop_repartition::{
    open_paths, string_paths, FileWrite, RepartitionReadContext, RepartitionWriteContext,
};
use crate::row::DatumView;
use crate::task::{OldStage, Task};
use vstd::prelude::*;

verus! {

/// The chunks that were read for a leaf of the plan: a scan of a file or
/// the read side of a shuffle.
#[derive(Debug, PartialEq, Eq)]
pub struct LeafInput {
    pub pop_key: POPKey,
    pub chunks: Vec<Chunk>,
}

/// Position of the first input for operator `key`.
pub open spec fn leaf_position(inputs: Seq<LeafInput>, key: usize) -> Option<int>
    decreases inputs.len(),
{
    if inputs.len() == 0 {
        None
    } else if inputs[0].pop_key.id == key {
        Some(0)
    } else {
        match leaf_position(inputs.skip(1), key) {
            Some(i) => Some(i + 1),
            None => None,
        }
    }
}

/// The first input for the operator is the one that the search finds.
proof fn lemma_leaf_position(inputs: Seq<LeafInput>, key: usize, k: int)
    requires
        0 <= k <= inputs.len(),
        forall|j: int| 0 <= j < k ==> inputs[j].pop_key.id != key,
        k < inputs.len() ==> inputs[k].pop_key.id == key,
    ensures
        leaf_position(inputs, key) == if k < inputs.len() {
            Some(k)
        } else {
            None
        },
    decreases inputs.len(),
{
    if inputs.len() > 0 && k > 0 {
        let rest = inputs.skip(1);
        assert forall|j: int| 0 <= j < k - 1 implies rest[j].pop_key.id != key by {
            assert(rest[j] == inputs[j + 1]);
        }
        lemma_leaf_position(rest, key, k - 1);
    }
}

/// The chunks read for operator `key`: those of the first input for it,
/// none when there is no input for it.
pub open spec fn leaf_chunks(inputs: Seq<LeafInput>, key: usize) -> Seq<Chunk> {
    match leaf_position(inputs, key) {
        Some(i) => inputs[i].chunks@,
        None => Seq::empty(),
    }
}

/// Text of the error for an operator that is not in the plan or lacks an
/// input.
pub open spec fn no_operator_text() -> Seq<char> {
    "Task: an operator or one of its inputs is not in the plan"@
}

/// Text of the error for the write side of a shuffle below the root of a
/// stage.
pub open spec fn inner_write_text() -> Seq<char> {
    "Task: the write side of a shuffle can only be the root of a stage"@
}

/// The `j`-th input of operator `key`, where the operator lists it and it
/// was added before the operator. An input that does not come before its
/// operator counts as missing.
pub open spec fn pop_input(pops: &POPGraph, key: usize, j: int) -> Option<usize> {
    let children = pops.children_of(key);
    if 0 <= j < children.len() && children[j] < key {
        Some(children[j])
    } else {
        None
    }
}

/// What operator `key` hands on in a task with the given leaf inputs.
///
/// A leaf hands on the chunks read for it. A join takes in its left input
/// whole, then hands on what each chunk of its right input gives against
/// it. An aggregation takes in its input whole and hands on one chunk.
/// Every operator shapes what it hands on by its properties and keeps back
/// chunks without rows. An operator that is not in the plan, or lacks an
/// input, fails when it is asked for a chunk; so does the write side of a
/// shuffle, which can only be the root of a stage.
pub open spec fn plan_future(pops: &POPGraph, key: usize, inputs: Seq<LeafInput>) -> Outcome
    decreases key,
{
    if !pops.has(key) {
        failed(no_operator_text())
    } else {
        let props = pops.props_of(key)@;
        match pops.value_of(key) {
            POP::CSV(_) | POP::CSVDir(_) | POP::RepartitionRead(_) => mapped(
                shaped(props),
                raw(leaf_chunks(inputs, key), 0),
            ),
            POP::HashJoin(join) => match (pop_input(pops, key, 0), pop_input(pops, key, 1)) {
                (Some(l), Some(r)) => join_future(
                    props,
                    &join,
                    build_start(),
                    false,
                    plan_future(pops, l, inputs),
                    plan_future(pops, r, inputs),
                ),
                _ => failed(no_operator_text()),
            },
            POP::Aggregation(agg) => match pop_input(pops, key, 0) {
                Some(c) => agg_future(props, &agg, (Seq::empty(), 0), false, plan_future(pops, c, inputs)),
                None => failed(no_operator_text()),
            },
            POP::RepartitionWrite(_) => failed(inner_write_text()),
        }
    }
}

/// The chunks read for operator `key`.
fn chunks_for(inputs: &Vec<LeafInput>, key: usize) -> (chunks: Vec<Chunk>)
    ensures
        raw(chunks@, 0) == raw(leaf_chunks(inputs@, key), 0),
{
    let mut i: usize = 0;
    while i < inputs.len()
        invariant
            i <= inputs@.len(),
            forall|j: int| 0 <= j < i ==> inputs@[j].pop_key.id != key,
        decreases inputs@.len() - i,
    {
        if inputs[i].pop_key.id == key {
            proof {
                lemma_leaf_position(inputs@, key, i as int);
            }
            let source = &inputs[i].chunks;
            let mut chunks: Vec<Chunk> = Vec::new();
            let mut c: usize = 0;
            while c < source.len()
                invariant
                    c <= source@.len(),
                    chunks@.len() == c,
                    forall|k: int| 0 <= k < c ==> (#[trigger] chunks@[k])@ == source@[k]@,
                decreases source@.len() - c,
            {
                chunks.push(source[c].clone());
                c += 1;
            }
            assert(pending(chunks@, 0).chunks =~= pending(source@, 0).chunks);
            return chunks;
        }
        i += 1;
    }
    proof {
        lemma_leaf_position(inputs@, key, i as int);
    }
    Vec::new()
}

/// The `j`-th input of operator `key`.
fn input_of(pops: &POPGraph, key: usize, j: usize) -> (res: Option<usize>)
    requires
        pops.has(key),
    ensures
        res == pop_input(pops, key, j as int),
{
    match &pops.get(key).children {
        Some(c) => {
            if j < c.len() && c[j] < key {
                Some(c[j])
            } else {
                None
            }
        },
        None => None,
    }
}

/// Sets up operator `key` and the operators below it for a task of
/// partition `partition_id`, on the chunks read for the leaves.
pub fn set_up<'a>(pops: &'a POPGraph, key: POPKey, partition_id: PartitionId, inputs: &Vec<LeafInput>) -> (rt: NodeRuntime<
    'a,
>)
    ensures
        rt.wf(),
        !rt.writes(),
        rt.future() == plan_future(pops, key.id, inputs@),
    decreases key.id,
{
    if key.id >= pops.len() {
        return NodeRuntime::Broken {
            text: String::from_str("Task: an operator or one of its inputs is not in the plan"),
        };
    }
    let (pop, props, _) = pops.get3(key.id);
    match pop {
        POP::CSV(_) | POP::CSVDir(_) => NodeRuntime::Scan {
            props,
            scan: ScanContext::new(key, partition_id, chunks_for(inputs, key.id)),
        },
        POP::RepartitionRead(_) => {
            let ctx = RepartitionReadContext {
                pop_key: key,
                partition_id,
                files: Vec::new(),
                chunks: chunks_for(inputs, key.id),
                position: 0,
            };
            NodeRuntime::Read { props, reader: ctx }
        },
        POP::HashJoin(join) => {
            let l = input_of(pops, key.id, 0);
            let r = input_of(pops, key.id, 1);
            match (l, r) {
                (Some(l), Some(r)) => {
                    let left = set_up(pops, POPKey { id: l }, partition_id, inputs);
                    let right = set_up(pops, POPKey { id: r }, partition_id, inputs);
                    let ctx = HashJoinContext::new(key, partition_id);
                    assert(ctx.state() == build_start()) by {
                        assert(ctx.state().columns =~= Seq::<Seq<DatumView>>::empty());
                        assert(ctx.state().keys =~= Seq::<Seq<DatumView>>::empty());
                    }
                    NodeRuntime::Join { props, join, table: ctx, built: false, left: Box::new(left), right: Box::new(right) }
                },
                _ => NodeRuntime::Broken {
                    text: String::from_str("Task: an operator or one of its inputs is not in the plan"),
                },
            }
        },
        POP::Aggregation(agg) => {
            match input_of(pops, key.id, 0) {
                Some(c) => {
                    let child = set_up(pops, POPKey { id: c }, partition_id, inputs);
                    let ctx = AggregationContext::new(key, partition_id);
                    assert(group_views(ctx.groups@) =~= Seq::<GroupView>::empty());
                    NodeRuntime::Agg { props, agg, groups: ctx, child: Box::new(child) }
                },
                None => NodeRuntime::Broken {
                    text: String::from_str("Task: an operator or one of its inputs is not in the plan"),
                },
            }
        },
        POP::RepartitionWrite(_) => NodeRuntime::Broken {
            text: String::from_str("Task: the write side of a shuffle can only be the root of a stage"),
        },
    }
}

/// What a task hands on: the chunks of its result, the writes to spill
/// files that it asks for, and the spill files to close at the end.
#[derive(Debug, PartialEq, Eq)]
pub struct TaskOutput {
    pub chunks: Vec<Chunk>,
    pub writes: Vec<FileWrite>,
    pub closed: Vec<String>,
}

/// The mathematical value of what a task hands on.
pub struct OutputView {
    pub chunks: Seq<ChunkView>,
    pub writes: Seq<WriteView>,
    pub closed: Seq<Seq<char>>,
}

/// The columns of every chunk of a list.
pub open spec fn chunk_views(chunks: Seq<Chunk>) -> Seq<ChunkView> {
    Seq::new(chunks.len(), |i: int| chunks[i]@)
}

impl View for TaskOutput {
    type V = OutputView;

    open spec fn view(&self) -> OutputView {
        OutputView { chunks: chunk_views(self.chunks@), writes: full_views(self.writes@), closed: string_paths(self.closed@) }
    }
}

/// What the task of partition `producer` of the stage rooted at `root`
/// hands on for the given leaf inputs, or the fault that ends it.
///
/// Where the root is the write side of a shuffle, every chunk of its input
/// is repartitioned: the task asks for the writes and, at the end, for the
/// files it wrote to be closed; it hands on no chunks. Any other root hands
/// on the chunks of its stream.
pub open spec fn task_output(
    pops: &POPGraph,
    root: usize,
    producer: PartitionId,
    temp_dir: Seq<char>,
    flow_id: usize,
    inputs: Seq<LeafInput>,
) -> Result<OutputView, Seq<char>> {
    if !pops.has(root) {
        Err(no_operator_text())
    } else {
        match pops.value_of(root) {
            POP::RepartitionWrite(rpw) => match pop_input(pops, root, 0) {
                None => Err(no_operator_text()),
                Some(c) => {
                    let w = WriterState {
                        temp_dir,
                        flow_id,
                        stage_link: rpw.stage_link,
                        producer,
                        writers: Seq::empty(),
                    };
                    match write_future(
                        pops.props_of(root)@,
                        &rpw,
                        w,
                        (Seq::empty(), Seq::new(rpw.cpartitions as nat, |c: int| false)),
                        plan_future(pops, c, inputs),
                    ) {
                        Err(e) => Err(e),
                        Ok((writes, writers)) => Ok(
                            OutputView {
                                chunks: Seq::empty(),
                                writes,
                                closed: open_paths(
                                    temp_dir,
                                    flow_id,
                                    rpw.stage_link,
                                    producer,
                                    writers,
                                    rpw.cpartitions as int,
                                ),
                            },
                        ),
                    }
                },
            },
            _ => {
                let stream = plan_future(pops, root, inputs);
                match stream.fault {
                    Some(e) => Err(e),
                    None => Ok(OutputView { chunks: stream.chunks, writes: Seq::empty(), closed: Seq::empty() }),
                }
            },
        }
    }
}

/// Soundness of a producer task: over the whole input of the write side of
/// a shuffle, the writes that the task asks for hold, for consumer
/// partition `c`, of every chunk that the input of the write side hands
/// on, in order, exactly the rows whose keys hash to `c` modulo the number
/// of consumer partitions. The task hands on no chunks itself.
pub proof fn lemma_task_writes_sound(
    pops: &POPGraph,
    root: usize,
    producer: PartitionId,
    temp_dir: Seq<char>,
    flow_id: usize,
    inputs: Seq<LeafInput>,
    c: int,
)
    requires
        pops.has(root),
        pops.value_of(root) is RepartitionWrite,
        0 <= c < pops.value_of(root)->RepartitionWrite_0.cpartitions,
        task_output(pops, root, producer, temp_dir, flow_id, inputs) is Ok,
    ensures
        task_output(pops, root, producer, temp_dir, flow_id, inputs) matches Ok(out) && pop_input(pops, root, 0) matches Some(
            child,
        ) && out.chunks.len() == 0 && written_for(out.writes, c) == assigned_all(
            &pops.value_of(root)->RepartitionWrite_0,
            pops.props_of(root)@,
            plan_future(pops, child, inputs).chunks,
            c,
        ),
{
    let rpw = pops.value_of(root)->RepartitionWrite_0;
    let child = pop_input(pops, root, 0)->Some_0;
    let w = WriterState { temp_dir, flow_id, stage_link: rpw.stage_link, producer, writers: Seq::empty() };
    let st = (Seq::<WriteView>::empty(), Seq::new(rpw.cpartitions as nat, |c: int| false));
    lemma_writes_sound(&rpw, pops.props_of(root)@, w, st, plan_future(pops, child, inputs), c);
}

impl Task {
    /// Runs the task on the stage rooted at `stage.root_pop_key`, given the
    /// chunks that were read for the leaves of the stage: asks the root for
    /// chunk after chunk until it hands on the chunk without rows. Spill
    /// files go under `temp_dir`.
    pub fn run(&mut self, flow: &Flow, stage: &OldStage, temp_dir: &str, inputs: &Vec<LeafInput>) -> (res: Result<
        TaskOutput,
        String,
    >)
        ensures
            *final(self) == *old(self),
            match res {
                Ok(out) => task_output(
                    &flow.pop_graph,
                    stage.root_pop_key.id,
                    old(self).partition_id,
                    temp_dir@,
                    flow.id,
                    inputs@,
                ) == Ok::<OutputView, Seq<char>>(out@),
                Err(e) => task_output(
                    &flow.pop_graph,
                    stage.root_pop_key.id,
                    old(self).partition_id,
                    temp_dir@,
                    flow.id,
                    inputs@,
                ) == Err::<OutputView, Seq<char>>(e@),
            },
    {
        let pops = &flow.pop_graph;
        let root = stage.root_pop_key;
        if root.id >= pops.len() {
            return Err(String::from_str("Task: an operator or one of its inputs is not in the plan"));
        }
        let (pop, props, _) = pops.get3(root.id);
        let mut rt = match pop {
            POP::RepartitionWrite(rpw) => {
                let c = match input_of(pops, root.id, 0) {
                    Some(c) => c,
                    None => {
                        return Err(String::from_str("Task: an operator or one of its inputs is not in the plan"));
                    },
                };
                let child = set_up(pops, POPKey { id: c }, self.partition_id, inputs);
                let ctx = RepartitionWriteContext::new(root, rpw, self.partition_id);
                let writes: Vec<FileWrite> = Vec::new();
                assert(full_views(writes@) =~= Seq::<WriteView>::empty());
                NodeRuntime::Write {
                    props,
                    rpw,
                    writer: ctx,
                    child: Box::new(child),
                    temp_dir,
                    flow_id: flow.id,
                    writes,
                    closed: Vec::new(),
                    done: false,
                }
            },
            _ => set_up(pops, root, self.partition_id, inputs),
        };
        let ghost whole = rt.future();
        let ghost asked = rt.outputs();
        let ghost writing = rt.writes();
        let mut chunks: Vec<Chunk> = Vec::new();
        let mut result: Option<Result<(), String>> = None;
        assert(chunk_views(chunks@) + rt.future().chunks =~= whole.chunks);
        while result.is_none()
            invariant
                rt.wf(),
                rt.writes() == writing,
                match result {
                    None => {
                        &&& chunk_views(chunks@) + rt.future().chunks == whole.chunks
                        &&& rt.future().fault == whole.fault
                        &&& rt.outputs() == asked
                    },
                    Some(Ok(_)) => {
                        &&& chunk_views(chunks@) == whole.chunks
                        &&& whole.fault is None
                        &&& rt.outputs() == asked
                        &&& writing ==> rt.finished()
                    },
                    Some(Err(e)) => whole.fault == Some(e@),
                },
            decreases
                    (if result is None {
                        rt.future().chunks.len() + 1
                    } else {
                        0
                    }),
        {
            let ghost before = chunks@;
            let ghost stream = rt.future();
            match rt.next() {
                Err(e) => {
                    result = Some(Err(e));
                },
                Ok(chunk) => {
                    if chunk.len() == 0 {
                        proof {
                            assert(chunk_views(chunks@) =~= whole.chunks);
                        }
                        result = Some(Ok(()));
                    } else {
                        chunks.push(chunk);
                        proof {
                            assert(chunk_views(chunks@) =~= chunk_views(before).push(stream.chunks[0]));
                            assert(chunk_views(chunks@) + rest(stream).chunks =~= chunk_views(before) + stream.chunks);
                        }
                    }
                },
            }
        }
        if let Some(Err(e)) = result {
            return Err(e);
        }
        match rt {
            NodeRuntime::Write { writes, closed, .. } => {
                let out = TaskOutput { chunks, writes, closed };
                assert(out@.chunks =~= Seq::<ChunkView>::empty());
                Ok(out)
            },
            _ => {
                let out = TaskOutput { chunks, writes: Vec::new(), closed: Vec::new() };
                assert(out@.writes =~= Seq::<WriteView>::empty());
                assert(out@.closed =~= Seq::<Seq<char>>::empty());
                Ok(out)
            },
        }
    }
}

} // verus!
