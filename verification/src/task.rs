//! The task model: lifecycle states, per-task metadata, progress records,
//! and the bounded progress buffer that decouples slow consumers.

use vstd::prelude::*;
use vstd::string::StringExecFns;

verus! {

/// The lifecycle state of a task.
#[derive(Clone, Copy, PartialEq, Eq, Structural, Debug)]
pub enum TaskStatus {
    Cancelled,
    Completed,
    Queued,
    Running,
    Failed,
    Paused,
}

/// Whether a state admits no further transition.
pub open spec fn is_terminal(s: TaskStatus) -> bool {
    s == TaskStatus::Completed || s == TaskStatus::Failed || s == TaskStatus::Cancelled
}

/// The edges of the lifecycle state machine.  A task is queued, runs, and
/// ends completed, failed or cancelled; pausing is reachable only from
/// running; recovery may send a running task back to queued.  No terminal
/// state is ever left.
pub open spec fn can_transition(a: TaskStatus, b: TaskStatus) -> bool {
    ||| a == b
    ||| (a == TaskStatus::Queued && (b == TaskStatus::Running || b == TaskStatus::Cancelled))
    ||| (a == TaskStatus::Running && (b == TaskStatus::Completed || b == TaskStatus::Failed
        || b == TaskStatus::Cancelled || b == TaskStatus::Paused || b == TaskStatus::Queued))
    ||| (a == TaskStatus::Paused && (b == TaskStatus::Running || b == TaskStatus::Cancelled))
}

/// What a submitted task declares about itself.  The complexity weight is a
/// relative cost in thousandths.
pub struct TaskRequest {
    pub priority: u8,
    pub complexity: u64,
    pub gpu_compatible: bool,
    pub dependencies: Vec<u128>,
}

/// The abstract value of a `TaskRequest`.
pub ghost struct RequestView {
    pub priority: u8,
    pub complexity: u64,
    pub gpu_compatible: bool,
    pub dependencies: Seq<u128>,
}

impl View for TaskRequest {
    type V = RequestView;

    open spec fn view(&self) -> RequestView {
        RequestView {
            priority: self.priority,
            complexity: self.complexity,
            gpu_compatible: self.gpu_compatible,
            dependencies: self.dependencies@,
        }
    }
}

/// Metadata kept for every task: identity, timestamps in milliseconds,
/// declared dependencies (advisory only; nothing gates execution on them),
/// and lifecycle state.
pub struct TaskMetadata {
    pub id: u128,
    pub submitted_at: u64,
    pub started_at: Option<u64>,
    pub completed_at: Option<u64>,
    pub dependencies: Vec<u128>,
    pub gpu_compatible: bool,
    pub status: TaskStatus,
    pub complexity: u64,
    pub priority: u8,
}

/// The abstract value of a `TaskMetadata`.
pub ghost struct MetaView {
    pub id: u128,
    pub submitted_at: u64,
    pub started_at: Option<u64>,
    pub completed_at: Option<u64>,
    pub dependencies: Seq<u128>,
    pub gpu_compatible: bool,
    pub status: TaskStatus,
    pub complexity: u64,
    pub priority: u8,
}

impl View for TaskMetadata {
    type V = MetaView;

    open spec fn view(&self) -> MetaView {
        MetaView {
            id: self.id,
            submitted_at: self.submitted_at,
            started_at: self.started_at,
            completed_at: self.completed_at,
            dependencies: self.dependencies@,
            gpu_compatible: self.gpu_compatible,
            status: self.status,
            complexity: self.complexity,
            priority: self.priority,
        }
    }
}

/// Copies a list of task identifiers.
pub fn copy_ids(v: &Vec<u128>) -> (r: Vec<u128>)
    ensures
        r@ == v@,
{
    let mut out: Vec<u128> = Vec::new();
    let mut i: usize = 0;
    while i < v.len()
        invariant
            i <= v@.len(),
            out@ == v@.take(i as int),
        decreases v@.len() - i,
    {
        out.push(v[i]);
        proof {
            assert(out@ =~= v@.take(i + 1));
        }
        i = i + 1;
    }
    proof {
        assert(v@.take(v@.len() as int) =~= v@);
    }
    out
}

impl TaskMetadata {
    /// A copy with the same abstract value.
    pub fn duplicate(&self) -> (r: TaskMetadata)
        ensures
            r@ == self@,
    {
        TaskMetadata {
            id: self.id,
            submitted_at: self.submitted_at,
            started_at: self.started_at,
            completed_at: self.completed_at,
            dependencies: copy_ids(&self.dependencies),
            gpu_compatible: self.gpu_compatible,
            status: self.status,
            complexity: self.complexity,
            priority: self.priority,
        }
    }
}

/// A progress report from a running task; progress is in thousandths.
pub struct TaskProgress {
    pub task_id: u128,
    pub progress_permille: u32,
    pub status: TaskStatus,
    pub message: Option<String>,
}

/// The abstract value of a `TaskProgress`.
pub ghost struct ProgressView {
    pub task_id: u128,
    pub progress_permille: u32,
    pub status: TaskStatus,
    pub message: Option<Seq<char>>,
}

impl View for TaskProgress {
    type V = ProgressView;

    open spec fn view(&self) -> ProgressView {
        ProgressView {
            task_id: self.task_id,
            progress_permille: self.progress_permille,
            status: self.status,
            message: match &self.message {
                Some(m) => Some(m@),
                None => None,
            },
        }
    }
}

/// A bounded buffer of progress reports.  When full, the oldest report is
/// dropped so that a slow consumer can never stall the producer.
pub struct ProgressBuffer {
    pub capacity: usize,
    pub items: Vec<TaskProgress>,
}

impl ProgressBuffer {
    pub open spec fn wf(&self) -> bool {
        &&& self.capacity >= 1
    &&& self.items@.len() <= self.capacity
    }

    /// The buffered reports, oldest first.
    pub open spec fn view_items(&self) -> Seq<ProgressView> {
        self.items@.map_values(|p: TaskProgress| p@)
    }

    /// An empty buffer of the given capacity; a capacity of zero is raised
    /// to one.
    pub fn new(capacity: usize) -> (r: ProgressBuffer)
        ensures
            r.wf(),
            r.view_items() == Seq::<ProgressView>::empty(),
            capacity >= 1 ==> r.capacity == capacity,
    {
        let cap = if capacity == 0 {
            1
        } else {
            capacity
        };
        let r = ProgressBuffer { capacity: cap, items: Vec::new() };
        proof {
            assert(r.view_items() =~= Seq::<ProgressView>::empty());
        }
        r
    }

    /// Adds a report; when the buffer is full the oldest one leaves.
    pub fn push(&mut self, p: TaskProgress)
        requires
            old(self).wf(),
        ensures
            final(self).wf(),
            final(self).capacity == old(self).capacity,
            final(self).view_items() == if old(self).view_items().len() < old(
                self,
            ).capacity {
                old(self).view_items().push(p@)
            } else {
                old(self).view_items().skip(1).push(p@)
            },
    {
        let ghost pv = p@;
        if self.items.len() == self.capacity {
            self.items.remove(0);
            proof {
                assert(self.view_items() =~= old(self).view_items().skip(1));
            }
            self.items.push(p);
            proof {
                assert(self.view_items() =~= old(self).view_items().skip(1).push(pv));
            }
        } else {
            self.items.push(p);
            proof {
                assert(self.view_items() =~= old(self).view_items().push(pv));
            }
        }
    }

    /// Takes the oldest report, when there is one.
    pub fn pop_front(&mut self) -> (r: Option<TaskProgress>)
        requires
            old(self).wf(),
        ensures
            final(self).wf(),
            final(self).capacity == old(self).capacity,
            match r {
                Some(p) => old(self).view_items().len() > 0 && p@ == old(
                    self,
                ).view_items().first() && final(self).view_items() == old(
                    self,
                ).view_items().skip(1),
                None => old(self).view_items().len() == 0 && final(self).view_items() == old(
                    self,
                ).view_items(),
            },
    {
        if self.items.len() == 0 {
            return None;
        }
        let p = self.items.remove(0);
        proof {
            assert(self.view_items() =~= old(self).view_items().skip(1));
        }
        Some(p)
    }
}

/// A tunable parameter set: callers implement crossover and mutation, and a
/// surrounding search loop breeds candidates.
pub trait Hyperparameters: Clone + Send + Sync {
    fn crossover(&self, other: &Self) -> Self;

    fn mutate(&self) -> Self;
}

/// The execution capability that collaborators supply: it runs a task body
/// and reports success or a textual failure; accelerator execution is
/// offered for tasks that declare themselves compatible.  Kernel semantics
/// are the implementor's affair; the coordinator only records the outcome.
pub trait Executor {
    fn run(&mut self, id: u128, req: &TaskRequest) -> Result<(), String>;

    fn run_on_accelerator(&mut self, id: u128, req: &TaskRequest) -> Result<(), String>;
}

/// The lifecycle state machine absorbs its terminal states: once a task is
/// completed, failed or cancelled, the only transition left is staying
/// put; in particular no task re-enters the queue from a terminal state.
pub proof fn lemma_terminal_states_absorb()
    ensures
        forall|a: TaskStatus, b: TaskStatus| is_terminal(a) && can_transition(a, b) ==> a == b,
        can_transition(TaskStatus::Queued, TaskStatus::Running),
        can_transition(TaskStatus::Running, TaskStatus::Completed),
        can_transition(TaskStatus::Running, TaskStatus::Failed),
        can_transition(TaskStatus::Running, TaskStatus::Cancelled),
        can_transition(TaskStatus::Running, TaskStatus::Queued),
{
}

/// The final progress report for a finished body: completed on success;
/// cancelled when the task had observed its cancellation signal; failed
/// with the error text otherwise.
pub fn final_report(id: u128, cancelled: bool, outcome: Result<(), String>) -> (r: TaskProgress)
    ensures
        r@.task_id == id,
        r@.progress_permille == 1000,
        match outcome {
            Ok(_) => r@.status == TaskStatus::Completed && r@.message is None,
            Err(detail) => r@.status == (if cancelled {
                TaskStatus::Cancelled
            } else {
                TaskStatus::Failed
            }) && r@.message == Some(detail@),
        },
{
    match outcome {
        Ok(_) => TaskProgress {
            task_id: id,
            progress_permille: 1000,
            status: TaskStatus::Completed,
            message: None,
        },
        Err(detail) => TaskProgress {
            task_id: id,
            progress_permille: 1000,
            status: if cancelled {
                TaskStatus::Cancelled
            } else {
                TaskStatus::Failed
            },
            message: Some(detail),
        },
    }
}

} // verus!
