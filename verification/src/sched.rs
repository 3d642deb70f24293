//! Scheduling decisions.
//!
//! Tasks are named by their index in a task list. The functions here decide
//! which task runs, update task states and run queues, and report the
//! context switch the caller has to perform; switching stacks, programming
//! the timer and talking to the interrupt controller are left to the caller.
use vstd::prelude::*;
use std::collections::{BTreeMap, BTreeSet, VecDeque};
use crate::task::TaskState;

verus! {

broadcast use vstd::std_specs::btree::group_btree_axioms;

/// Index of a task in the task list.
pub type TaskId = usize;

/// What the scheduler keeps about a task.
#[derive(Copy, Clone, Debug, PartialEq, Eq, Structural)]
pub struct SchedTask {
    pub state: TaskState,
    /// Wake-up time, in timer ticks, of a sleeping task.
    pub wake_up_at: u64,
    pub parent: Option<TaskId>,
}

/// Run queue and sleepers of one hart.
pub struct PerCoreScheduler {
    /// The runnable tasks of this hart, in the order they will run.
    pub runqueue: VecDeque<TaskId>,
    /// Tasks that went to sleep while running on this hart.
    pub sleeping_tasks: Vec<TaskId>,
    /// When the running task started its time slice.
    pub last_entrance_time: u64,
}

/// Scheduling state of one hart.
pub struct PerCoreContext {
    pub scheduler: PerCoreScheduler,
    pub currently_running_task: TaskId,
    pub idle_task: TaskId,
}

/// Scheduling state shared by all harts.
pub struct GlobalScheduler {
    /// The hart that received the last new task.
    pub last_rq_hart_idx: usize,
    /// Tasks blocked on each external interrupt, oldest first.
    pub irq_wait_queue: BTreeMap<u32, VecDeque<TaskId>>,
    /// Tasks blocked in `wait`.
    pub waiting_tasks: BTreeSet<TaskId>,
}

/// The context switch a scheduling decision asks for.
#[derive(Copy, Clone, Debug, PartialEq, Eq, Structural)]
pub enum Switch {
    /// Keep running the current task.
    Stay,
    /// Switch from `from` to the user task `to`.
    ToUser { from: TaskId, to: TaskId },
    /// Switch from `from` to the hart's idle task.
    ToIdle { from: TaskId },
}

/// Ticks of a full time slice (32 ms).
pub const TIME_SLICE_TICKS: u64 = 320_000;

/// Ticks until the next timer interrupt (8 ms).
pub const TIMER_PERIOD_TICKS: u64 = 80_000;

/// What a timer interrupt asks of the hart: set the timer `rearm_after`
/// ticks past the time read when it is set, then reschedule when
/// `reschedule` holds.
#[derive(Debug, Clone, Copy, PartialEq, Eq)]
pub struct TimerAction {
    pub rearm_after: u64,
    pub reschedule: bool,
}

/// The time the timer is set to when re-armed at time `now`.
pub fn timer_deadline(now: u64, rearm_after: u64) -> (r: u64)
    requires
        now + rearm_after <= u64::MAX,
    ensures
        r == now + rearm_after,
{
    now + rearm_after
}

pub open spec fn ids_below(s: Seq<TaskId>, n: nat) -> bool {
    forall|i: int| 0 <= i < s.len() ==> #[trigger] s[i] < n
}

impl PerCoreContext {
    /// Every task the hart refers to exists.
    pub open spec fn wf(&self, n: nat) -> bool {
        &&& self.currently_running_task < n
        &&& self.idle_task < n
        &&& ids_below(self.scheduler.runqueue@, n)
        &&& ids_below(self.scheduler.sleeping_tasks@, n)
    }
}

/// A fresh, empty per-hart scheduler.
pub fn init_per_core_scheduler() -> (r: PerCoreScheduler)
    ensures
        r.runqueue@.len() == 0,
        r.sleeping_tasks@.len() == 0,
        r.last_entrance_time == 0,
{
    PerCoreScheduler { runqueue: VecDeque::new(), sleeping_tasks: Vec::new(), last_entrance_time: 0 }
}

/// The task list with task `id` in state `s`.
pub open spec fn with_state(tasks: Seq<SchedTask>, id: TaskId, s: TaskState) -> Seq<SchedTask> {
    tasks.update(id as int, SchedTask { state: s, ..tasks[id as int] })
}

fn set_state(tasks: &mut Vec<SchedTask>, id: TaskId, s: TaskState)
    requires
        id < old(tasks)@.len(),
    ensures
        final(tasks)@ == with_state(old(tasks)@, id, s),
{
    let t = tasks[id];
    tasks.set(id, SchedTask { state: s, wake_up_at: t.wake_up_at, parent: t.parent });
}

/// Whether `schedule` puts the previously running task back in the run
/// queue: it is not the idle task and was running or ready.
pub open spec fn keeps_current(cur: TaskId, idle: TaskId, st: TaskState) -> bool {
    cur != idle && (st == TaskState::Running || st == TaskState::Ready)
}

/// What `schedule` does on a hart running `cur` (idle task `idle`) with run
/// queue `rq`, entered at `last`, over the task list `tasks` at time `now`:
/// the switch, the running task, the run queue, the entrance time and the
/// task list afterwards.
pub open spec fn schedule_next(
    cur: TaskId,
    idle: TaskId,
    rq: Seq<TaskId>,
    last: u64,
    tasks: Seq<SchedTask>,
    now: u64,
) -> (Switch, TaskId, Seq<TaskId>, u64, Seq<SchedTask>) {
    if rq.len() > 0 {
        let next = rq[0];
        let after_next = with_state(tasks, next, TaskState::Running);
        let keep = keeps_current(cur, idle, after_next[cur as int].state);
        (
            Switch::ToUser { from: cur, to: next },
            next,
            if keep { rq.drop_first().push(cur) } else { rq.drop_first() },
            now,
            if keep { with_state(after_next, cur, TaskState::Ready) } else { after_next },
        )
    } else if tasks[cur as int].state == TaskState::Ready || tasks[cur as int].state
        == TaskState::Running {
        (Switch::Stay, cur, rq, last, with_state(tasks, cur, TaskState::Running))
    } else {
        (Switch::ToIdle { from: cur }, idle, rq, now, with_state(tasks, idle, TaskState::Running))
    }
}

/// The hart `ctx1` and task list `tasks1` are what `schedule` leaves, and
/// `r` the switch it reports, when started as [`schedule_next`] describes.
pub open spec fn schedule_result(
    cur: TaskId,
    idle: TaskId,
    rq: Seq<TaskId>,
    last: u64,
    tasks: Seq<SchedTask>,
    now: u64,
    r: Switch,
    ctx1: PerCoreContext,
    tasks1: Seq<SchedTask>,
) -> bool {
    let s = schedule_next(cur, idle, rq, last, tasks, now);
    &&& r == s.0
    &&& ctx1.currently_running_task == s.1
    &&& ctx1.scheduler.runqueue@ == s.2
    &&& ctx1.scheduler.last_entrance_time == s.3
    &&& tasks1 == s.4
    &&& ctx1.idle_task == idle
}

/// Picks the next task for this hart.
///
/// With a task waiting in the run queue, that task becomes the running one,
/// and the task that was running goes to the back of the queue (as ready)
/// unless it is the idle task or no longer runnable. With an empty queue the
/// current task keeps running if it can, and otherwise the hart switches to
/// its idle task.
pub fn schedule(ctx: &mut PerCoreContext, tasks: &mut Vec<SchedTask>, now: u64) -> (r: Switch)
    requires
        old(ctx).wf(old(tasks)@.len()),
    ensures
        final(tasks)@.len() == old(tasks)@.len(),
        final(ctx).wf(final(tasks)@.len()),
        final(ctx).idle_task == old(ctx).idle_task,
        final(ctx).scheduler.sleeping_tasks@ == old(ctx).scheduler.sleeping_tasks@,
        schedule_result(
            old(ctx).currently_running_task,
            old(ctx).idle_task,
            old(ctx).scheduler.runqueue@,
            old(ctx).scheduler.last_entrance_time,
            old(tasks)@,
            now,
            r,
            *final(ctx),
            final(tasks)@,
        ),
{
    let ghost expect = schedule_next(
        ctx.currently_running_task,
        ctx.idle_task,
        ctx.scheduler.runqueue@,
        ctx.scheduler.last_entrance_time,
        tasks@,
        now,
    );
    match ctx.scheduler.runqueue.pop_front() {
        Some(task) => {
            let current_task = ctx.currently_running_task;
            set_state(tasks, task, TaskState::Running);
            ctx.currently_running_task = task;
            let st = tasks[current_task].state;
            if current_task != ctx.idle_task && st == TaskState::Running {
                set_state(tasks, current_task, TaskState::Ready);
                ctx.scheduler.runqueue.push_back(current_task);
            } else if current_task != ctx.idle_task && st == TaskState::Ready {
                ctx.scheduler.runqueue.push_back(current_task);
            }
            ctx.scheduler.last_entrance_time = now;
            proof {
                assert(old(ctx).scheduler.runqueue@.drop_first() =~= old(ctx).scheduler.runqueue@.subrange(
                    1,
                    old(ctx).scheduler.runqueue@.len() as int,
                ));
                assert(ctx.scheduler.runqueue@ =~= expect.2);
                assert(tasks@ =~= expect.4);
            }
            Switch::ToUser { from: current_task, to: task }
        },
        None => {
            let current_task = ctx.currently_running_task;
            let st = tasks[current_task].state;
            if st == TaskState::Ready || st == TaskState::Running {
                set_state(tasks, current_task, TaskState::Running);
                return Switch::Stay;
            }
            ctx.currently_running_task = ctx.idle_task;
            let idle = ctx.idle_task;
            set_state(tasks, idle, TaskState::Running);
            ctx.scheduler.last_entrance_time = now;
            Switch::ToIdle { from: current_task }
        },
    }
}

/// Whether a sleeping task's wake-up time has come.
pub open spec fn is_due(tasks: Seq<SchedTask>, now: u64) -> spec_fn(TaskId) -> bool {
    |id: TaskId| tasks[id as int].wake_up_at <= now
}

/// Whether a sleeping task keeps sleeping.
pub open spec fn not_due(tasks: Seq<SchedTask>, now: u64) -> spec_fn(TaskId) -> bool {
    |id: TaskId| !(tasks[id as int].wake_up_at <= now)
}

/// The task list after waking the sleepers in `sl` whose time has come.
pub open spec fn woken(tasks: Seq<SchedTask>, sl: Seq<TaskId>, now: u64) -> Seq<SchedTask> {
    Seq::new(
        tasks.len(),
        |x: int|
            if sl.contains(x as TaskId) && tasks[x].wake_up_at <= now {
                SchedTask { state: TaskState::Ready, ..tasks[x] }
            } else {
                tasks[x]
            },
    )
}

proof fn lemma_take_contains_step(s: Seq<TaskId>, i: int, x: TaskId)
    requires
        0 <= i < s.len(),
    ensures
        s.take(i + 1).contains(x) == (s.take(i).contains(x) || s[i] == x),
{
    assert(s.take(i + 1) =~= s.take(i).push(s[i]));
    if s.take(i + 1).contains(x) {
        let k = choose|k: int| 0 <= k < s.take(i + 1).len() && #[trigger] s.take(i + 1)[k] == x;
        if k < i {
            assert(s.take(i)[k] == x);
        }
    }
    if s.take(i).contains(x) {
        let k = choose|k: int| 0 <= k < s.take(i).len() && #[trigger] s.take(i)[k] == x;
        assert(s.take(i + 1)[k] == x);
    }
    if s[i] == x {
        assert(s.take(i + 1)[i] == x);
    }
}

proof fn lemma_take_filter_step(s: Seq<TaskId>, i: int, p: spec_fn(TaskId) -> bool)
    requires
        0 <= i < s.len(),
    ensures
        s.take(i + 1).filter(p) == (if p(s[i]) {
            s.take(i).filter(p).push(s[i])
        } else {
            s.take(i).filter(p)
        }),
{
    reveal(Seq::filter);
    let t = s.take(i + 1);
    assert(t.len() == i + 1);
    assert(t.drop_last() =~= s.take(i));
    assert(t.last() == s[i]);
    assert(t.filter(p) == (if p(t.last()) {
        t.drop_last().filter(p).push(t.last())
    } else {
        t.drop_last().filter(p)
    }));
}

/// Handles a timer interrupt on this hart.
///
/// Every sleeping task whose wake-up time has come becomes ready and moves,
/// in order, to the back of the run queue. The result tells whether the
/// caller must reschedule: the running task used up its time slice, a task
/// woke up, or the idle task runs while work is queued. The timer is
/// re-armed one period later either way, before any rescheduling.
pub fn on_timer_interrupt(ctx: &mut PerCoreContext, tasks: &mut Vec<SchedTask>, now: u64) -> (r: TimerAction)
    requires
        old(ctx).wf(old(tasks)@.len()),
        old(ctx).currently_running_task != old(ctx).idle_task ==> now >= old(ctx).scheduler.last_entrance_time,
    ensures
        final(ctx).wf(final(tasks)@.len()),
        final(ctx).currently_running_task == old(ctx).currently_running_task,
        final(ctx).idle_task == old(ctx).idle_task,
        final(ctx).scheduler.last_entrance_time == old(ctx).scheduler.last_entrance_time,
        final(ctx).scheduler.runqueue@ == old(ctx).scheduler.runqueue@ + old(ctx).scheduler.sleeping_tasks@.filter(
            is_due(old(tasks)@, now),
        ),
        final(ctx).scheduler.sleeping_tasks@ == old(ctx).scheduler.sleeping_tasks@.filter(
            not_due(old(tasks)@, now),
        ),
        final(tasks)@ == woken(old(tasks)@, old(ctx).scheduler.sleeping_tasks@, now),
        r.rearm_after == TIMER_PERIOD_TICKS,
        r.reschedule == ((old(ctx).currently_running_task != old(ctx).idle_task && now
            - old(ctx).scheduler.last_entrance_time > TIME_SLICE_TICKS)
            || old(ctx).scheduler.sleeping_tasks@.filter(is_due(old(tasks)@, now)).len() > 0
            || (old(ctx).currently_running_task == old(ctx).idle_task
            && final(ctx).scheduler.runqueue@.len() > 0)),
{
    let ghost t0 = tasks@;
    let ghost sl = ctx.scheduler.sleeping_tasks@;
    let ghost rq0 = ctx.scheduler.runqueue@;
    let ghost n = tasks@.len();
    let tlen = tasks.len();
    let last_entrance = ctx.scheduler.last_entrance_time;
    let mut some_task_woke_up = false;
    let mut kept: Vec<TaskId> = Vec::new();
    let mut i: usize = 0;
    proof {
        assert(sl.take(0) =~= Seq::<TaskId>::empty());
        assert(woken(t0, sl.take(0), now) =~= t0);
    }
    while i < ctx.scheduler.sleeping_tasks.len()
        invariant
            ctx.scheduler.sleeping_tasks@ == sl,
            ctx.wf(n),
            tasks@.len() == n,
            n == t0.len(),
            n == tlen,
            ids_below(sl, n),
            i <= sl.len(),
            kept@ == sl.take(i as int).filter(not_due(t0, now)),
            ctx.scheduler.runqueue@ == rq0 + sl.take(i as int).filter(is_due(t0, now)),
            tasks@ == woken(t0, sl.take(i as int), now),
            some_task_woke_up == (sl.take(i as int).filter(is_due(t0, now)).len() > 0),
            ctx.currently_running_task == old(ctx).currently_running_task,
            ctx.idle_task == old(ctx).idle_task,
            ctx.scheduler.last_entrance_time == old(ctx).scheduler.last_entrance_time,
        decreases sl.len() - i,
    {
        let id = ctx.scheduler.sleeping_tasks[i];
        proof {
            lemma_take_filter_step(sl, i as int, is_due(t0, now));
            lemma_take_filter_step(sl, i as int, not_due(t0, now));
            assert(tasks@[id as int].wake_up_at == t0[id as int].wake_up_at);
        }
        if tasks[id].wake_up_at <= now {
            set_state(tasks, id, TaskState::Ready);
            some_task_woke_up = true;
            ctx.scheduler.runqueue.push_back(id);
            proof {
                assert forall|x: TaskId| #[trigger] sl.take(i + 1).contains(x)
                    == (sl.take(i as int).contains(x) || sl[i as int] == x) by {
                    lemma_take_contains_step(sl, i as int, x);
                }
                assert forall|x: int| 0 <= x < n implies #[trigger] tasks@[x] == woken(t0, sl.take(i + 1), now)[x] by {
                    assert(0 <= x <= usize::MAX);
                    assert(sl.take(i + 1).contains(x as TaskId) == (sl.take(i as int).contains(x as TaskId) || sl[i as int] == x as TaskId));
                }
                assert(tasks@ =~= woken(t0, sl.take(i + 1), now));
                assert(ctx.scheduler.runqueue@ =~= rq0 + sl.take(i + 1).filter(is_due(t0, now)));
            }
        } else {
            kept.push(id);
            proof {
                assert forall|x: TaskId| #[trigger] sl.take(i + 1).contains(x)
                    == (sl.take(i as int).contains(x) || sl[i as int] == x) by {
                    lemma_take_contains_step(sl, i as int, x);
                }
                assert forall|x: int| 0 <= x < n implies #[trigger] tasks@[x] == woken(t0, sl.take(i + 1), now)[x] by {
                    assert(0 <= x <= usize::MAX);
                    assert(sl.take(i + 1).contains(x as TaskId) == (sl.take(i as int).contains(x as TaskId) || sl[i as int] == x as TaskId));
                }
                assert(tasks@ =~= woken(t0, sl.take(i + 1), now));
            }
        }
        i = i + 1;
    }
    proof {
        assert(sl.take(sl.len() as int) =~= sl);
        assert forall|k: int| 0 <= k < kept@.len() implies #[trigger] kept@[k] < n by {
            assert(kept@.contains(kept@[k])); sl.lemma_filter_contains_rev(not_due(t0, now), kept@[k]);
        }
        assert forall|k: int| 0 <= k < ctx.scheduler.runqueue@.len() implies #[trigger] ctx.scheduler.runqueue@[k] < n by {
            if k >= rq0.len() {
                let f = sl.filter(is_due(t0, now));
                assert(f.contains(ctx.scheduler.runqueue@[k]));
                sl.lemma_filter_contains_rev(is_due(t0, now), ctx.scheduler.runqueue@[k]);
            }
        }
    }
    ctx.scheduler.sleeping_tasks = kept;
    let current = ctx.currently_running_task;
    let idle = ctx.idle_task;
    let reschedule = (current != idle && now - last_entrance > TIME_SLICE_TICKS) || some_task_woke_up
        || (current == idle && ctx.scheduler.runqueue.len() > 0);
    TimerAction { rearm_after: TIMER_PERIOD_TICKS, reschedule }
}

/// The hart that gets the next new task: the one after `last`, wrapping
/// around after the last hart.
pub open spec fn next_hart(last: usize, core_count: usize) -> usize {
    if last + 1 >= core_count {
        0
    } else {
        (last + 1) as usize
    }
}

/// New tasks go to the harts in turn.
pub proof fn lemma_round_robin(last: usize, core_count: usize)
    requires
        last < core_count,
    ensures
        next_hart(last, core_count) == (last + 1) % (core_count as int),
        next_hart(last, core_count) < core_count,
{
    if last + 1 >= core_count {
        assert(last + 1 == core_count);
    } else {
        assert((last + 1) % (core_count as int) == last + 1) by (nonlinear_arith)
            requires
                0 <= last + 1 < core_count,
        ;
    }
}

/// Every hart's context refers only to existing tasks.
pub open spec fn cores_wf(cores: Seq<PerCoreContext>, n: nat) -> bool {
    forall|i: int| 0 <= i < cores.len() ==> (#[trigger] cores[i]).wf(n)
}

/// Queues `task` on the next hart in round-robin order and returns that hart.
pub fn enqueue_new_task(global: &mut GlobalScheduler, cores: &mut Vec<PerCoreContext>, task: TaskId) -> (r: usize)
    requires
        old(cores)@.len() >= 1,
    ensures
        r == next_hart(old(global).last_rq_hart_idx, old(cores)@.len() as usize),
        final(global).last_rq_hart_idx == r,
        final(global).irq_wait_queue@ == old(global).irq_wait_queue@,
        final(global).waiting_tasks@ == old(global).waiting_tasks@,
        final(cores)@.len() == old(cores)@.len(),
        forall|i: int| 0 <= i < old(cores)@.len() && i != r ==> #[trigger] final(cores)@[i] == old(cores)@[i],
        final(cores)@[r as int].scheduler.runqueue@ == old(cores)@[r as int].scheduler.runqueue@.push(task),
        final(cores)@[r as int].scheduler.sleeping_tasks@ == old(cores)@[r as int].scheduler.sleeping_tasks@,
        final(cores)@[r as int].scheduler.last_entrance_time == old(cores)@[r as int].scheduler.last_entrance_time,
        final(cores)@[r as int].currently_running_task == old(cores)@[r as int].currently_running_task,
        final(cores)@[r as int].idle_task == old(cores)@[r as int].idle_task,
{
    if global.last_rq_hart_idx >= cores.len() - 1 {
        global.last_rq_hart_idx = 0;
    } else {
        global.last_rq_hart_idx = global.last_rq_hart_idx + 1;
    }
    let idx = global.last_rq_hart_idx;
    cores[idx].scheduler.runqueue.push_back(task);
    idx
}

/// Wakes the oldest task blocked on interrupt `irq`, if any, and queues it
/// on the next hart; returns the task and the hart.
pub fn on_external_irq(
    global: &mut GlobalScheduler,
    cores: &mut Vec<PerCoreContext>,
    tasks: &mut Vec<SchedTask>,
    irq: u32,
) -> (r: Option<(TaskId, usize)>)
    requires
        old(cores)@.len() >= 1,
        forall|q: u32| #[trigger] old(global).irq_wait_queue@.contains_key(q) ==> ids_below(old(global).irq_wait_queue@[q]@, old(tasks)@.len()),
    ensures
        final(cores)@.len() == old(cores)@.len(),
        final(tasks)@.len() == old(tasks)@.len(),
        match r {
            Some((t, hart)) => {
                &&& old(global).irq_wait_queue@.contains_key(irq)
                &&& old(global).irq_wait_queue@[irq]@.len() > 0
                &&& t == old(global).irq_wait_queue@[irq]@[0]
                &&& final(global).irq_wait_queue@.contains_key(irq)
                &&& final(global).irq_wait_queue@[irq]@ == old(global).irq_wait_queue@[irq]@.drop_first()
                &&& final(tasks)@ == with_state(old(tasks)@, t, TaskState::Ready)
                &&& hart == next_hart(old(global).last_rq_hart_idx, old(cores)@.len() as usize)
                &&& final(cores)@[hart as int].scheduler.runqueue@ == old(cores)@[hart as int].scheduler.runqueue@.push(t)
            },
            None => {
                &&& !old(global).irq_wait_queue@.contains_key(irq) || old(global).irq_wait_queue@[irq]@.len() == 0
                &&& final(tasks)@ == old(tasks)@
                &&& final(cores)@ == old(cores)@
                &&& final(global).last_rq_hart_idx == old(global).last_rq_hart_idx
            },
        },
{
    proof {
        crate::page_meta::lemma_u32_keys_ordered();
    }
    match global.irq_wait_queue.remove(&irq) {
        None => None,
        Some(mut q) => {
            let t = q.pop_front();
            global.irq_wait_queue.insert(irq, q);
            match t {
                None => None,
                Some(task) => {
                    proof {
                        assert(old(global).irq_wait_queue@.contains_key(irq));
                        assert(ids_below(old(global).irq_wait_queue@[irq]@, old(tasks)@.len()));
                        assert(old(global).irq_wait_queue@[irq]@.drop_first() =~= q@);
                    }
                    set_state(tasks, task, TaskState::Ready);
                    let hart = enqueue_new_task(global, cores, task);
                    Some((task, hart))
                },
            }
        },
    }
}

/// Blocks the running task until interrupt `irq` arrives and schedules
/// another task.
pub fn block_on_external_irq(
    global: &mut GlobalScheduler,
    ctx: &mut PerCoreContext,
    tasks: &mut Vec<SchedTask>,
    irq: u32,
    now: u64,
) -> (r: Switch)
    requires
        old(ctx).wf(old(tasks)@.len()),
    ensures
        final(tasks)@.len() == old(tasks)@.len(),
        final(ctx).wf(final(tasks)@.len()),
        final(global).irq_wait_queue@.contains_key(irq),
        final(global).irq_wait_queue@[irq]@ == (if old(global).irq_wait_queue@.contains_key(irq) {
            old(global).irq_wait_queue@[irq]@
        } else {
            Seq::<TaskId>::empty()
        }).push(old(ctx).currently_running_task),
        forall|q: u32| q != irq ==> #[trigger] final(global).irq_wait_queue@.contains_key(q)
            == old(global).irq_wait_queue@.contains_key(q),
        forall|q: u32| q != irq && old(global).irq_wait_queue@.contains_key(q)
            ==> #[trigger] final(global).irq_wait_queue@[q] == old(global).irq_wait_queue@[q],
        final(ctx).scheduler.sleeping_tasks@ == old(ctx).scheduler.sleeping_tasks@,
        schedule_result(
            old(ctx).currently_running_task,
            old(ctx).idle_task,
            old(ctx).scheduler.runqueue@,
            old(ctx).scheduler.last_entrance_time,
            with_state(old(tasks)@, old(ctx).currently_running_task, TaskState::Blocked),
            now,
            r,
            *final(ctx),
            final(tasks)@,
        ),
{
    proof {
        crate::page_meta::lemma_u32_keys_ordered();
    }
    let cur = ctx.currently_running_task;
    set_state(tasks, cur, TaskState::Blocked);
    let mut q = match global.irq_wait_queue.remove(&irq) {
        Some(q) => q,
        None => VecDeque::with_capacity(1),
    };
    q.push_back(cur);
    global.irq_wait_queue.insert(irq, q);
    schedule(ctx, tasks, now)
}

/// Records that `task` waits for a child and schedules another task.
pub fn block_on_wait(global: &mut GlobalScheduler, ctx: &mut PerCoreContext, tasks: &mut Vec<SchedTask>, task: TaskId, now: u64) -> (r: Switch)
    requires
        old(ctx).wf(old(tasks)@.len()),
    ensures
        final(global).waiting_tasks@ == old(global).waiting_tasks@.insert(task),
        final(global).irq_wait_queue@ == old(global).irq_wait_queue@,
        final(global).last_rq_hart_idx == old(global).last_rq_hart_idx,
        final(tasks)@.len() == old(tasks)@.len(),
        final(ctx).wf(final(tasks)@.len()),
        final(ctx).scheduler.sleeping_tasks@ == old(ctx).scheduler.sleeping_tasks@,
        schedule_result(
            old(ctx).currently_running_task,
            old(ctx).idle_task,
            old(ctx).scheduler.runqueue@,
            old(ctx).scheduler.last_entrance_time,
            old(tasks)@,
            now,
            r,
            *final(ctx),
            final(tasks)@,
        ),
{
    proof {
        crate::page_meta::lemma_usize_keys_ordered();
    }
    global.waiting_tasks.insert(task);
    schedule(ctx, tasks, now)
}

/// After `task` exits: a parent blocked in `wait` becomes ready and is
/// queued again; then hart `core` schedules. Returns the woken parent and
/// its hart, and the switch hart `core` must make.
pub fn on_task_exit(
    global: &mut GlobalScheduler,
    cores: &mut Vec<PerCoreContext>,
    core: usize,
    tasks: &mut Vec<SchedTask>,
    task: TaskId,
    now: u64,
) -> (r: (Option<(TaskId, usize)>, Switch))
    requires
        core < old(cores)@.len(),
        task < old(tasks)@.len(),
        cores_wf(old(cores)@, old(tasks)@.len()),
        old(tasks)@[task as int].parent matches Some(p) ==> p < old(tasks)@.len(),
    ensures
        final(tasks)@.len() == old(tasks)@.len(),
        final(cores)@.len() == old(cores)@.len(),
        match r.0 {
            Some((p, hart)) => {
                &&& old(tasks)@[task as int].parent == Some(p)
                &&& old(global).waiting_tasks@.contains(p)
                &&& final(global).waiting_tasks@ == old(global).waiting_tasks@.remove(p)
                &&& hart == next_hart(old(global).last_rq_hart_idx, old(cores)@.len() as usize)
            },
            None => {
                &&& final(global).waiting_tasks@ == old(global).waiting_tasks@
                &&& (old(tasks)@[task as int].parent matches Some(p) ==> !old(global).waiting_tasks@.contains(p))
                &&& final(global).last_rq_hart_idx == old(global).last_rq_hart_idx
            },
        },
        r.0 matches Some((p, hart)) ==> final(global).last_rq_hart_idx == hart,
        final(global).irq_wait_queue@ == old(global).irq_wait_queue@,
        ({
            let c0 = old(cores)@[core as int];
            let woke = r.0 is Some;
            let p = r.0->Some_0.0;
            let hart = r.0->Some_0.1;
            let mid_tasks = if woke { with_state(old(tasks)@, p, TaskState::Ready) } else { old(tasks)@ };
            let mid_rq = if woke && hart == core {
                c0.scheduler.runqueue@.push(p)
            } else {
                c0.scheduler.runqueue@
            };
            &&& schedule_result(
                c0.currently_running_task,
                c0.idle_task,
                mid_rq,
                c0.scheduler.last_entrance_time,
                mid_tasks,
                now,
                r.1,
                final(cores)@[core as int],
                final(tasks)@,
            )
            &&& forall|i: int|
                0 <= i < old(cores)@.len() && i != core ==> {
                    &&& (#[trigger] final(cores)@[i]).scheduler.runqueue@ == (if woke && hart == i {
                        old(cores)@[i].scheduler.runqueue@.push(p)
                    } else {
                        old(cores)@[i].scheduler.runqueue@
                    })
                    &&& final(cores)@[i].currently_running_task == old(cores)@[i].currently_running_task
                    &&& final(cores)@[i].idle_task == old(cores)@[i].idle_task
                }
        }),
{
    proof {
        crate::page_meta::lemma_usize_keys_ordered();
    }
    let mut woken: Option<(TaskId, usize)> = None;
    match tasks[task].parent {
        Some(p) => {
            if global.waiting_tasks.remove(&p) {
                set_state(tasks, p, TaskState::Ready);
                let hart = enqueue_new_task(global, cores, p);
                woken = Some((p, hart));
            }
        },
        None => {},
    }
    proof {
        assert forall|i: int| 0 <= i < cores@.len() implies (#[trigger] cores@[i]).wf(tasks@.len()) by {
            assert(old(cores)@[i].wf(old(tasks)@.len()));
            if let Some((p, hart)) = woken {
                if i == hart {
                    assert(ids_below(cores@[i].scheduler.runqueue@, tasks@.len()));
                }
            }
        }
    }
    let sw = schedule(&mut cores[core], tasks, now);
    (woken, sw)
}

/// Wake-up time of a task that goes to sleep for `time_ms` milliseconds at
/// `now`; an overflowing request wakes the task at the next tick check.
pub open spec fn wake_up_time(now: u64, time_ms: u64) -> u64 {
    let nanos: int = if time_ms * 1_000_000 <= u64::MAX { time_ms * 1_000_000 } else { 0 };
    let ticks = crate::arch::nanos_to_ticks_spec(nanos);
    if now + ticks <= u64::MAX {
        (now + ticks) as u64
    } else {
        0
    }
}

/// Puts the running task to sleep for `time_ms` milliseconds and schedules
/// another task.
pub fn sleep_current_task(ctx: &mut PerCoreContext, tasks: &mut Vec<SchedTask>, now: u64, time_ms: u64) -> (r: Switch)
    requires
        old(ctx).wf(old(tasks)@.len()),
        (if time_ms * 1_000_000 <= u64::MAX { time_ms * 1_000_000 } else { 0 }) * crate::arch::CPU_HERTZ <= u64::MAX,
    ensures
        final(tasks)@.len() == old(tasks)@.len(),
        final(ctx).wf(final(tasks)@.len()),
        final(ctx).scheduler.sleeping_tasks@ == old(ctx).scheduler.sleeping_tasks@.push(old(ctx).currently_running_task),
        final(tasks)@[old(ctx).currently_running_task as int].wake_up_at == wake_up_time(now, time_ms),
        schedule_result(
            old(ctx).currently_running_task,
            old(ctx).idle_task,
            old(ctx).scheduler.runqueue@,
            old(ctx).scheduler.last_entrance_time,
            old(tasks)@.update(
                old(ctx).currently_running_task as int,
                SchedTask {
                    state: TaskState::Sleeping,
                    wake_up_at: wake_up_time(now, time_ms),
                    parent: old(tasks)@[old(ctx).currently_running_task as int].parent,
                },
            ),
            now,
            r,
            *final(ctx),
            final(tasks)@,
        ),
{
    let cur = ctx.currently_running_task;
    let nanos = match time_ms.checked_mul(1_000_000) {
        Some(n) => n,
        None => 0,
    };
    let ticks = crate::arch::Riscv::nanos_to_ticks(nanos);
    let wake = match now.checked_add(ticks) {
        Some(w) => w,
        None => 0,
    };
    let t = tasks[cur];
    tasks.set(cur, SchedTask { state: TaskState::Sleeping, wake_up_at: wake, parent: t.parent });
    ctx.scheduler.sleeping_tasks.push(cur);
    let ghost before = tasks@;
    let sw = schedule(ctx, tasks, now);
    proof {
        assert(tasks@[cur as int].wake_up_at == before[cur as int].wake_up_at);
    }
    sw
}

} // verus!
