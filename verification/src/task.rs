//! Task states, exit statuses and per-task bookkeeping.
use vstd::prelude::*;

verus! {

/// Process identifier.
#[derive(Copy, Clone, Debug, PartialEq, Eq, Structural)]
pub struct Pid(pub u64);

/// Lifecycle state of a task.
#[derive(Copy, Clone, Debug, PartialEq, Eq, Structural)]
pub enum TaskState {
    /// Task is sleeping and cannot be run
    Sleeping,
    /// Task is running
    Running,
    /// Task is ready to be run (possibly in the runqueue)
    Ready,
    /// Task is blocked by either a syscall or an I/O op
    Blocked,
    /// Task is dead/killed but its resources aren't claimed yet
    Zombie,
    /// Task is fully exited and its resources are claimed
    Exited,
}

/// The byte that encodes a state.
pub open spec fn state_code(s: TaskState) -> u8 {
    match s {
        TaskState::Sleeping => 0,
        TaskState::Running => 1,
        TaskState::Ready => 2,
        TaskState::Blocked => 3,
        TaskState::Zombie => 4,
        TaskState::Exited => 5,
    }
}

/// The state a byte encodes.
pub open spec fn state_of_code(c: u8) -> TaskState {
    if c == 0 {
        TaskState::Sleeping
    } else if c == 1 {
        TaskState::Running
    } else if c == 2 {
        TaskState::Ready
    } else if c == 3 {
        TaskState::Blocked
    } else if c == 4 {
        TaskState::Zombie
    } else {
        TaskState::Exited
    }
}

impl TaskState {
    /// The byte that encodes this state.
    pub fn code(self) -> (r: u8)
        ensures
            r == state_code(self),
            state_of_code(r) == self,
    {
        match self {
            TaskState::Sleeping => 0,
            TaskState::Running => 1,
            TaskState::Ready => 2,
            TaskState::Blocked => 3,
            TaskState::Zombie => 4,
            TaskState::Exited => 5,
        }
    }
}

/// A task state stored as its byte encoding, so that it can be read and
/// written as a single word.
pub struct AtomicTaskState(pub u8);

impl AtomicTaskState {
    /// The stored byte encodes a state.
    pub open spec fn wf(&self) -> bool {
        self.0 < 6
    }

    pub open spec fn state(&self) -> TaskState {
        state_of_code(self.0)
    }

    /// Holds `value` initially.
    pub fn from_state(value: TaskState) -> (r: Self)
        ensures
            r.wf(),
            r.state() == value,
    {
        AtomicTaskState(value.code())
    }

    /// Stores `state`.
    pub fn set(&mut self, state: TaskState)
        ensures
            final(self).wf(),
            final(self).state() == state,
    {
        self.0 = state.code();
    }

    /// The stored state.
    pub fn raw(&self) -> (r: TaskState)
        requires
            self.wf(),
        ensures
            r == self.state(),
    {
        let c = self.0;
        if c == 0 {
            TaskState::Sleeping
        } else if c == 1 {
            TaskState::Running
        } else if c == 2 {
            TaskState::Ready
        } else if c == 3 {
            TaskState::Blocked
        } else if c == 4 {
            TaskState::Zombie
        } else {
            TaskState::Exited
        }
    }

    /// Whether the stored state is `other`.
    pub fn is(&self, other: TaskState) -> (r: bool)
        requires
            self.wf(),
        ensures
            r == (self.state() == other),
    {
        self.0 == other.code()
    }
}

/// Reading a state back gives what was stored.
pub proof fn lemma_state_round_trip(s: TaskState)
    ensures
        state_of_code(state_code(s)) == s,
        state_code(s) < 6,
{
}

/// How a child finished, as `wait` reports it.
#[derive(Copy, Clone, Debug, PartialEq, Eq, Structural)]
pub enum WaitStatus {
    Exited(i8),
}

/// The status word `wait` writes to userspace: the exit code, as a byte,
/// in bits 8..16.
#[derive(Copy, Clone, Debug, PartialEq, Eq, Structural)]
pub struct RawWaitStatus(pub u32);

/// The byte that an exit code is stored as (two's complement).
pub open spec fn exit_byte(e: i8) -> int {
    if e < 0 {
        e + 256
    } else {
        e as int
    }
}

impl RawWaitStatus {
    /// Encodes a status.
    pub fn from_status(value: WaitStatus) -> (r: Self)
        ensures
            match value {
                WaitStatus::Exited(e) => r.0 == exit_byte(e) * 256,
            },
    {
        match value {
            WaitStatus::Exited(e) => {
                let b: u32 = if e < 0 {
                    (e as i32 + 256) as u32
                } else {
                    e as u32
                };
                RawWaitStatus(b * 256)
            },
        }
    }

    /// The exit code the status word carries.
    pub fn exit_code(&self) -> (r: u8)
        ensures
            r == (self.0 / 256) % 256,
    {
        ((self.0 / 256) % 256) as u8
    }
}

/// Decoding an encoded status gives the exit byte back.
pub proof fn lemma_wait_status_round_trip(e: i8)
    ensures
        (exit_byte(e) * 256 / 256) % 256 == exit_byte(e),
{
}

/// Scheduling and family bookkeeping of a task.
pub struct TaskRuntime {
    /// The task that spawned this one, if any.
    pub parent: Option<Pid>,
    /// Tasks this one spawned.
    pub children: Vec<Pid>,
    /// Process exit code
    pub exit_code: i32,
    /// Wake up time in ticks
    pub wake_up_at: u64,
}

impl TaskRuntime {
    /// The runtime of a task that was just created.
    pub fn new(parent: Option<Pid>) -> (r: Self)
        ensures
            r.parent == parent,
            r.children@.len() == 0,
            r.exit_code == -1,
            r.wake_up_at == 0,
    {
        TaskRuntime { parent, children: Vec::new(), exit_code: -1, wake_up_at: 0 }
    }
}

} // verus!
