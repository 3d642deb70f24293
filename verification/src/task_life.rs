//! Ending tasks and collecting ended children.
use vstd::prelude::*;
use std::collections::{BTreeMap, VecDeque};
use crate::task::{AtomicTaskState, Pid, TaskRuntime, TaskState, state_code, state_of_code};
use crate::file_table::FileTable;
use crate::addr::{PhysAddr, VirtAddr};
use crate::arch::Context;
use crate::error::Error;
use crate::mappings::KERNEL_DIRECT_MAPPING_BASE;
use crate::page_table::FramePool;

verus! {

broadcast use vstd::std_specs::btree::group_btree_axioms;

/// Ends a task with `exit_code`: it becomes a zombie, its files are closed
/// and its children forgotten. A task that has already exited is left alone;
/// answers whether the scheduler must be told.
pub fn exit(
    state: &mut AtomicTaskState,
    runtime: &mut TaskRuntime,
    files: &mut FileTable,
    exit_code: i32,
) -> (r: bool)
    requires
        old(state).wf(),
    ensures
        old(state).state() == TaskState::Exited ==> !r && *final(state) == *old(state)
            && final(runtime).exit_code == old(runtime).exit_code && final(runtime).children@
            == old(runtime).children@ && final(files).view() == old(files).view(),
        old(state).state() != TaskState::Exited ==> {
            &&& r
            &&& final(state).wf()
            &&& final(state).state() == TaskState::Zombie
            &&& final(runtime).exit_code == exit_code
            &&& final(runtime).children@.len() == 0
            &&& final(runtime).parent == old(runtime).parent
            &&& final(files).view().len() == 0
        },
{
    if state.is(TaskState::Exited) {
        return false;
    }
    state.set(TaskState::Zombie);
    runtime.exit_code = exit_code;
    files.destroy();
    runtime.children = Vec::new();
    true
}

/// Bytes from the start of a kernel task's stack frame to its initial
/// stack pointer.
pub const KERNEL_TASK_SP_OFFSET: u64 = 0xfa0;

/// Sets up a kernel task that starts at `entry`: its stack is a frame from
/// `pool`, seen through the direct map, and its context resumes at `entry`
/// with the stack pointer `KERNEL_TASK_SP_OFFSET` bytes into that frame.
/// Answers the frame and the context; an empty pool is out of memory.
pub fn create_kernel_task(entry: VirtAddr, pool: &mut FramePool) -> (r: Result<(PhysAddr, Context), Error>)
    requires
        old(pool).wf(),
        old(pool).frames@.len() > 0 ==> old(pool).frames@.last()@ + KERNEL_DIRECT_MAPPING_BASE
            + KERNEL_TASK_SP_OFFSET <= u64::MAX,
    ensures
        final(pool).wf(),
        old(pool).frames@.len() == 0 ==> r == Err::<(PhysAddr, Context), Error>(Error::Oom)
            && final(pool).frames@ == old(pool).frames@,
        old(pool).frames@.len() > 0 ==> {
            &&& final(pool).frames@ == old(pool).frames@.drop_last()
            &&& r is Ok
            &&& r->Ok_0.0 == old(pool).frames@.last()
            &&& r->Ok_0.1.ra == entry@
            &&& r->Ok_0.1.sp == old(pool).frames@.last()@ + KERNEL_DIRECT_MAPPING_BASE
                + KERNEL_TASK_SP_OFFSET
        },
{
    if pool.len() == 0 {
        return Err(Error::Oom);
    }
    let frame = pool.take();
    let stack = VirtAddr(crate::mappings::phys_to_virt(frame.0));
    let sp = match stack.offset_by(0xfa0) {
        Some(v) => v,
        None => return Err(Error::Todo),
    };
    Ok((frame, Context::initialize(entry, sp)))
}

/// Task states by pid, as their byte encodings.
pub struct TaskStates {
    pub states: BTreeMap<u64, u8>,
}

/// The state of task `pid` is known and is a zombie.
pub open spec fn is_zombie(m: Map<u64, u8>, pid: Pid) -> bool {
    m.contains_key(pid.0) && state_of_code(m[pid.0]) == TaskState::Zombie
}

/// What collecting a zombie child of `children` (task states `states`)
/// answers, and the children and states it leaves: the first zombie child,
/// which leaves the children and becomes exited, or `None` with nothing
/// changed when no child is a zombie.
pub open spec fn reap_result(
    children: Seq<Pid>,
    states: Map<u64, u8>,
    r: Option<Pid>,
    children1: Seq<Pid>,
    states1: Map<u64, u8>,
) -> bool {
    match r {
        Some(c) => exists|i: int|
            0 <= i < children.len() && children[i] == c && is_zombie(states, c) && (forall|j: int|
                0 <= j < i ==> !is_zombie(states, #[trigger] children[j])) && children1
                == children.remove(i) && states1 == states.insert(c.0, state_code(TaskState::Exited)),
        None => (forall|j: int| 0 <= j < children.len() ==> !is_zombie(states, #[trigger] children[j]))
            && children1 == children && states1 == states,
    }
}

/// Collects the first child that is a zombie: it leaves the children and
/// becomes exited. Answers it, or `None` when no child is a zombie.
pub fn reap_zombie_child(children: &mut Vec<Pid>, states: &mut TaskStates) -> (r: Option<Pid>)
    ensures
        reap_result(old(children)@, old(states).states@, r, final(children)@, final(states).states@),
        match r {
            Some(c) => exists|i: int|
                0 <= i < old(children)@.len() && old(children)@[i] == c && is_zombie(
                    old(states).states@,
                    c,
                ) && (forall|j: int|
                    0 <= j < i ==> !is_zombie(old(states).states@, #[trigger] old(children)@[j]))
                    && final(children)@ == old(children)@.remove(i) && final(states).states@
                    == old(states).states@.insert(c.0, state_code(TaskState::Exited)),
            None => (forall|j: int|
                0 <= j < old(children)@.len() ==> !is_zombie(
                    old(states).states@,
                    #[trigger] old(children)@[j],
                )) && final(children)@ == old(children)@ && final(states).states@ == old(
                states,
            ).states@,
        },
{
    proof {
        crate::page_meta::lemma_u64_keys_ordered();
    }
    let mut i: usize = 0;
    while i < children.len()
        invariant
            i <= children.len(),
            children@ == old(children)@,
            states.states@ == old(states).states@,
            forall|j: int| 0 <= j < i ==> !is_zombie(states.states@, #[trigger] children@[j]),
        decreases children.len() - i,
    {
        let pid = children[i];
        let zombie = match states.states.get(&pid.0) {
            Some(c) => *c == 4,
            None => false,
        };
        if zombie {
            let child = children.remove(i);
            states.states.insert(child.0, TaskState::Exited.code());
            return Some(child);
        }
        i += 1;
    }
    None
}

/// What waiting for a child did.
#[derive(Debug, Clone, Copy, PartialEq, Eq, Structural)]
pub enum WaitOutcome {
    /// The task has no children: there is nothing to wait for.
    NoChildren,
    /// A child had ended and was collected at once; the task runs on.
    Reaped(Pid),
    /// No child has ended yet: the task blocks until one does, and then
    /// collects it with [`reap_zombie_child`].
    Blocked,
}

/// Waits for a child of the task in `state` with `children`, the task
/// states being `states`: with no children nothing happens; otherwise the
/// task blocks unless a zombie child can be collected right away, in which
/// case it is collected and the task is running again.
pub fn wait(state: &mut AtomicTaskState, children: &mut Vec<Pid>, states: &mut TaskStates) -> (r: WaitOutcome)
    requires
        old(state).wf(),
    ensures
        final(state).wf(),
        old(children)@.len() == 0 ==> r == WaitOutcome::NoChildren && *final(state) == *old(state)
            && final(children)@ == old(children)@ && final(states).states@ == old(states).states@,
        old(children)@.len() > 0 ==> match r {
            WaitOutcome::Reaped(c) => reap_result(
                old(children)@,
                old(states).states@,
                Some(c),
                final(children)@,
                final(states).states@,
            ) && final(state).state() == TaskState::Running,
            WaitOutcome::Blocked => reap_result(
                old(children)@,
                old(states).states@,
                None,
                final(children)@,
                final(states).states@,
            ) && final(state).state() == TaskState::Blocked,
            WaitOutcome::NoChildren => false,
        },
{
    if children.len() == 0 {
        return WaitOutcome::NoChildren;
    }
    state.set(TaskState::Blocked);
    match reap_zombie_child(children, states) {
        Some(c) => {
            state.set(TaskState::Running);
            WaitOutcome::Reaped(c)
        },
        None => WaitOutcome::Blocked,
    }
}

/// How long the reaper sleeps between rounds, in milliseconds.
pub const REAPER_SLEEP_MS: u64 = 5_000;

/// Ended tasks waiting for the reaper to release their resources.
pub struct ReaperQueue {
    pub cleanup_queue: VecDeque<Pid>,
}

impl ReaperQueue {
    /// An empty queue.
    pub fn new() -> (r: Self)
        ensures
            r.cleanup_queue@.len() == 0,
    {
        ReaperQueue { cleanup_queue: VecDeque::new() }
    }

    /// Hands task `pid` to the reaper.
    pub fn enqueue_for_reaper(&mut self, pid: Pid)
        ensures
            final(self).cleanup_queue@ == old(self).cleanup_queue@.push(pid),
    {
        self.cleanup_queue.push_back(pid);
    }

    /// One round of the reaper: every queued task, oldest first, to be
    /// cleaned up; the queue is left empty.
    pub fn reaper_round(&mut self) -> (r: Vec<Pid>)
        ensures
            r@ == old(self).cleanup_queue@,
            final(self).cleanup_queue@.len() == 0,
    {
        let mut out: Vec<Pid> = Vec::new();
        loop
            invariant
                out@ + self.cleanup_queue@ == old(self).cleanup_queue@,
            decreases self.cleanup_queue@.len(),
        {
            match self.cleanup_queue.pop_front() {
                Some(t) => {
                    out.push(t);
                    proof {
                        assert(out@ + self.cleanup_queue@ =~= old(self).cleanup_queue@);
                    }
                },
                None => {
                    proof {
                        assert(out@ + self.cleanup_queue@ =~= out@);
                    }
                    return out;
                },
            }
        }
    }
}

} // verus!
