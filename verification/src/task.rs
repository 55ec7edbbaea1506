//! Tasks, their dispatch to workers, and the scheduler that runs the stages
//! of a flow one after the other.

use crate::flow::Flow;
use crate::includes::{PartitionId, StageId};
use crate::pop::POPKey;
use crate::row::Row;
use crate::stage::StageGraph;
use vstd::prelude::*;

verus! {

/// What the scheduler and the workers tell each other.
#[derive(Debug, PartialEq, Eq)]
pub enum ThreadPoolMessage {
    /// To a worker: run the task serialized in the payload.
    RunTask(Vec<u8>),
    /// To a worker: stop.
    EndTask,
    /// To the scheduler: a task has ended.
    TaskEnded,
}

/// What a worker does on a message.
#[derive(Debug, PartialEq, Eq)]
pub enum WorkerAction {
    /// Run the task serialized in the payload, then report that it ended.
    Run(Vec<u8>),
    /// Leave the loop.
    Stop,
}

/// Text of the error for a message that a worker must never get.
pub open spec fn invalid_message_text() -> Seq<char> {
    "Invalid message"@
}

impl ThreadPoolMessage {
    /// What a worker does on this message. A worker runs the tasks it is
    /// sent and stops when told to; a report that a task has ended is not
    /// for workers.
    pub fn for_worker(self) -> (res: Result<WorkerAction, String>)
        ensures
            match self {
                ThreadPoolMessage::RunTask(bytes) => res == Ok::<WorkerAction, String>(WorkerAction::Run(bytes)),
                ThreadPoolMessage::EndTask => res == Ok::<WorkerAction, String>(WorkerAction::Stop),
                ThreadPoolMessage::TaskEnded => res matches Err(e) && e@ == invalid_message_text(),
            },
    {
        match self {
            ThreadPoolMessage::RunTask(bytes) => Ok(WorkerAction::Run(bytes)),
            ThreadPoolMessage::EndTask => Ok(WorkerAction::Stop),
            ThreadPoolMessage::TaskEnded => Err(String::from_str("Invalid message")),
        }
    }
}

/// One task on its way to a worker.
#[derive(Debug, Clone, Copy, PartialEq, Eq, Structural)]
pub struct Dispatch {
    /// The worker that runs the task.
    pub thread_id: usize,
    /// The partition that the task runs.
    pub partition_id: PartitionId,
}

/// The tasks of a stage of `npartitions` partitions on `nworkers` workers:
/// one per partition, in order, each on the worker that its partition
/// number selects modulo the number of workers.
pub open spec fn fan_out(npartitions: usize, nworkers: usize) -> Seq<Dispatch> {
    Seq::new(
        npartitions as nat,
        |p: int| Dispatch { thread_id: (p % nworkers as int) as usize, partition_id: p as usize },
    )
}

/// The tasks of a stage of `npartitions` partitions on `nworkers` workers.
pub fn dispatch_partitions(npartitions: usize, nworkers: usize) -> (tasks: Vec<Dispatch>)
    requires
        nworkers > 0,
    ensures
        tasks@ == fan_out(npartitions, nworkers),
{
    let mut tasks: Vec<Dispatch> = Vec::new();
    let mut partition_id: usize = 0;
    while partition_id < npartitions
        invariant
            partition_id <= npartitions,
            nworkers > 0,
            tasks@ == fan_out(npartitions, nworkers).take(partition_id as int),
        decreases npartitions - partition_id,
    {
        let thread_id = partition_id % nworkers;
        tasks.push(Dispatch { thread_id, partition_id });
        assert(tasks@ =~= fan_out(npartitions, nworkers).take(partition_id + 1));
        partition_id += 1;
    }
    assert(tasks@ =~= fan_out(npartitions, nworkers));
    tasks
}

/// A stage given by its root operator alone.
#[derive(Debug, Clone, Copy, PartialEq, Eq, Structural)]
pub struct OldStage {
    pub root_pop_key: POPKey,
}

impl OldStage {
    /// The stage rooted at operator `top` of `flow`.
    pub fn new(_flow: &Flow, top: POPKey) -> (stage: OldStage)
        ensures
            stage.root_pop_key == top,
    {
        OldStage { root_pop_key: top }
    }

    /// The tasks of the stage: one per partition of its root operator, each
    /// on the worker that its partition number selects.
    pub fn run(&self, flow: &Flow, nworkers: usize) -> (tasks: Vec<Dispatch>)
        requires
            nworkers > 0,
            flow.pop_graph.has(self.root_pop_key.id),
        ensures
            tasks@ == fan_out(flow.pop_graph.props_of(self.root_pop_key.id).npartitions, nworkers),
    {
        let props = flow.pop_graph.get_properties(self.root_pop_key.id);
        dispatch_partitions(props.npartitions, nworkers)
    }
}

/// What the scheduler asks for next.
#[derive(Debug, PartialEq, Eq)]
pub enum SchedulerStep {
    /// Send these tasks of the given stage to their workers.
    Dispatch(StageId, Vec<Dispatch>),
    /// Tasks are running: wait for the next one to end.
    Wait,
    /// Every stage has run.
    Finish,
    /// A task has failed: stop and report its error.
    Fail(String),
}

/// Runs the stages of a flow from the last one opened to the root, each
/// only after all tasks of the stage before it have ended.
#[derive(Debug, PartialEq, Eq)]
pub struct Scheduler {
    /// Number of workers.
    pub nworkers: usize,
    /// For each stage, the number of its tasks that have ended.
    pub acked: Vec<usize>,
    /// The stage dispatched last; the stages with smaller ids wait. Equal to
    /// the number of stages while nothing has been dispatched.
    pub current: usize,
    /// The error of the first task that failed.
    pub failed: Option<String>,
}

impl Scheduler {
    /// Stage `s` has been dispatched.
    pub open spec fn dispatched(&self, s: int) -> bool {
        self.current <= s < self.acked@.len()
    }

    /// Every task of stage `s` has ended.
    pub open spec fn complete(&self, stages: &StageGraph, s: int) -> bool {
        0 <= s < self.acked@.len() && self.acked@[s] == stages.stages@[s].npartitions
    }

    /// The scheduler keeps count for every stage; it has workers; the
    /// stages after the current one are complete, the stages before it have
    /// not begun, and of the current one no more tasks have ended than it
    /// has.
    pub open spec fn wf(&self, stages: &StageGraph) -> bool {
        &&& self.nworkers > 0
        &&& self.acked@.len() == stages.stages@.len()
        &&& self.current <= self.acked@.len()
        &&& forall|s: int| self.current < s < self.acked@.len() ==> #[trigger] self.acked@[s] == stages.stages@[s].npartitions
        &&& forall|s: int| 0 <= s < self.current && s < self.acked@.len() ==> #[trigger] self.acked@[s] == 0
        &&& self.current < self.acked@.len() ==> self.acked@[self.current as int] <= stages.stages@[self.current as int].npartitions
    }

    /// A scheduler for `flow` that has dispatched nothing.
    pub fn new(flow: &Flow, nworkers: usize) -> (sched: Scheduler)
        requires
            nworkers > 0,
        ensures
            sched.wf(&flow.stage_graph),
            sched.nworkers == nworkers,
            sched.current == flow.stage_graph.stages@.len(),
            sched.failed is None,
            forall|s: int| 0 <= s < flow.stage_graph.stages@.len() ==> !sched.dispatched(s),
    {
        let n = flow.stage_graph.len();
        let mut acked: Vec<usize> = Vec::new();
        let mut s: usize = 0;
        while s < n
            invariant
                s <= n,
                acked@.len() == s,
                forall|k: int| 0 <= k < s ==> #[trigger] acked@[k] == 0,
            decreases n - s,
        {
            acked.push(0);
            s += 1;
        }
        Scheduler { nworkers, acked, current: n, failed: None }
    }

    /// What to do next. After a failure: report it. While tasks of the
    /// current stage are running: wait. When every stage is complete:
    /// finish. Otherwise dispatch the tasks of the next stage, the one with
    /// the next smaller id, which becomes the current stage.
    pub fn schedule(&mut self, flow: &Flow) -> (step: SchedulerStep)
        requires
            old(self).wf(&flow.stage_graph),
        ensures
            final(self).wf(&flow.stage_graph),
            final(self).nworkers == old(self).nworkers,
            final(self).acked == old(self).acked,
            final(self).failed == old(self).failed,
            match old(self).failed {
                Some(e) => step == SchedulerStep::Fail(e) && final(self).current == old(self).current,
                None => if old(self).current < old(self).acked@.len() && !old(self).complete(
                    &flow.stage_graph,
                    old(self).current as int,
                ) {
                    step == SchedulerStep::Wait && final(self).current == old(self).current
                } else if old(self).current == 0 {
                    step == SchedulerStep::Finish && final(self).current == 0
                } else {
                    &&& final(self).current == old(self).current - 1
                    &&& step matches SchedulerStep::Dispatch(stage, tasks)
                    &&& stage == final(self).current
                    &&& tasks@ == fan_out(flow.stage_graph.stages@[stage as int].npartitions, old(self).nworkers)
                },
            },
    {
        if let Some(e) = &self.failed {
            return SchedulerStep::Fail(e.clone());
        }
        if self.current < self.acked.len() && self.acked[self.current] != flow.stage_graph.get_stage(
            self.current,
        ).npartitions {
            return SchedulerStep::Wait;
        }
        if self.current == 0 {
            return SchedulerStep::Finish;
        }
        self.current = self.current - 1;
        let stage = self.current;
        let tasks = dispatch_partitions(flow.stage_graph.get_stage(stage).npartitions, self.nworkers);
        SchedulerStep::Dispatch(stage, tasks)
    }

    /// Notes that a task of the current stage has ended.
    pub fn on_ack(&mut self, flow: &Flow)
        requires
            old(self).wf(&flow.stage_graph),
            old(self).current < old(self).acked@.len(),
            !old(self).complete(&flow.stage_graph, old(self).current as int),
        ensures
            final(self).wf(&flow.stage_graph),
            final(self).nworkers == old(self).nworkers,
            final(self).current == old(self).current,
            final(self).failed == old(self).failed,
            final(self).acked@ == old(self).acked@.update(
                old(self).current as int,
                (old(self).acked@[old(self).current as int] + 1) as usize,
            ),
    {
        let n = self.acked[self.current];
        self.acked.set(self.current, n + 1);
    }

    /// Notes that a task has failed with `error`. The first failure is the
    /// one reported.
    pub fn on_error(&mut self, error: String)
        ensures
            final(self).nworkers == old(self).nworkers,
            final(self).current == old(self).current,
            final(self).acked == old(self).acked,
            final(self).failed == match old(self).failed {
                Some(e) => Some(e),
                None => Some(error),
            },
    {
        if self.failed.is_none() {
            self.failed = Some(error);
        }
    }
}

/// The stage barrier: whenever a stage has been dispatched, every task of
/// every stage that feeds it has ended. So no task ever finds input of a
/// producer that is still running.
pub proof fn lemma_stage_barrier(sched: &Scheduler, stages: &StageGraph, consumer: StageId, producer: StageId)
    requires
        sched.wf(stages),
        stages.wf(),
        sched.dispatched(consumer as int),
        producer < stages.stages@.len(),
        stages.stages@[producer as int].parent_stage_id == Some(consumer),
    ensures
        sched.complete(stages, producer as int),
{
    assert(stages.stages@[producer as int].stage_id == producer);
    assert(consumer < producer);
    assert(sched.acked@[producer as int] == stages.stages@[producer as int].npartitions);
}

/// A task: one partition of one stage.
#[derive(Debug, PartialEq, Eq)]
pub struct Task {
    pub partition_id: PartitionId,
    /// Scratch row for single-row evaluation.
    pub task_row: Row,
}

impl Task {
    /// The task of partition `partition_id`, before it has run.
    pub fn new(partition_id: PartitionId) -> (task: Task)
        ensures
            task.partition_id == partition_id,
            task.task_row@.len() == 0,
    {
        Task { partition_id, task_row: Row::new(Vec::new()) }
    }
}

} // verus!
