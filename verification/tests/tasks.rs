use std::collections::{BTreeMap, BTreeSet, VecDeque};

use efiks::file_table::{Console, FileRef, FileTable};
use efiks::sched::{
    block_on_external_irq, block_on_wait, enqueue_new_task, init_per_core_scheduler,
    on_external_irq, on_task_exit, on_timer_interrupt, schedule, sleep_current_task,
    GlobalScheduler, PerCoreContext, SchedTask, Switch, TIME_SLICE_TICKS, TIMER_PERIOD_TICKS,
    timer_deadline,
};
use efiks::sleeping::{SleepNode, SleepingTasks};
use efiks::task::{AtomicTaskState, Pid, RawWaitStatus, TaskRuntime, TaskState, WaitStatus};
use efiks::task_life::{exit, reap_zombie_child, wait, ReaperQueue, TaskStates, WaitOutcome, REAPER_SLEEP_MS};
use efiks::task_table::TaskPool;
use efiks::trap::{irq_outcome, trap_action, RiscvTrapFrame, TrapAction, TrapCause, TrapFrame, REG_A0, REG_A7, REG_SP, REG_TP};
use efiks::addr::VirtAddr;
use efiks::pte::{PTE_R, PTE_W};
use efiks::vsfs::{File, INode, INodeInner, Metadata, Type};

fn task(state: TaskState) -> SchedTask {
    SchedTask { state, wake_up_at: 0, parent: None }
}

fn hart(running: usize, idle: usize, rq: &[usize]) -> PerCoreContext {
    let mut s = init_per_core_scheduler();
    for t in rq {
        s.runqueue.push_back(*t);
    }
    PerCoreContext { scheduler: s, currently_running_task: running, idle_task: idle }
}

fn global() -> GlobalScheduler {
    GlobalScheduler { last_rq_hart_idx: 0, irq_wait_queue: BTreeMap::new(), waiting_tasks: BTreeSet::new() }
}

#[test]
fn task_state_bytes_round_trip() {
    let all = [
        TaskState::Sleeping,
        TaskState::Running,
        TaskState::Ready,
        TaskState::Blocked,
        TaskState::Zombie,
        TaskState::Exited,
    ];
    for (i, s) in all.iter().enumerate() {
        assert_eq!(s.code() as usize, i);
        let a = AtomicTaskState::from_state(*s);
        assert_eq!(a.raw(), *s);
        assert!(a.is(*s));
    }
    let mut a = AtomicTaskState::from_state(TaskState::Ready);
    a.set(TaskState::Zombie);
    assert!(a.is(TaskState::Zombie));
    assert!(!a.is(TaskState::Ready));
}

#[test]
fn wait_status_carries_exit_byte() {
    let s = RawWaitStatus::from_status(WaitStatus::Exited(3));
    assert_eq!(s.0, 0x300);
    assert_eq!(s.exit_code(), 3);
    let n = RawWaitStatus::from_status(WaitStatus::Exited(-1));
    assert_eq!(n.0, 0xff00);
    assert_eq!(n.exit_code(), 255);
}

#[test]
fn new_runtime_has_no_children() {
    let r = TaskRuntime::new(Some(Pid(1)));
    assert_eq!(r.parent, Some(Pid(1)));
    assert!(r.children.is_empty());
    assert_eq!(r.exit_code, -1);
    assert_eq!(r.wake_up_at, 0);
}

#[test]
fn schedule_rotates_the_run_queue() {
    let mut tasks = vec![task(TaskState::Running), task(TaskState::Running), task(TaskState::Ready), task(TaskState::Ready)];
    let mut ctx = hart(1, 0, &[2, 3]);
    let sw = schedule(&mut ctx, &mut tasks, 500);
    assert_eq!(sw, Switch::ToUser { from: 1, to: 2 });
    assert_eq!(ctx.currently_running_task, 2);
    assert_eq!(ctx.scheduler.runqueue, VecDeque::from(vec![3, 1]));
    assert_eq!(ctx.scheduler.last_entrance_time, 500);
    assert_eq!(tasks[2].state, TaskState::Running);
    assert_eq!(tasks[1].state, TaskState::Ready);
}

#[test]
fn schedule_keeps_a_lone_runnable_task() {
    let mut tasks = vec![task(TaskState::Running), task(TaskState::Running)];
    let mut ctx = hart(1, 0, &[]);
    assert_eq!(schedule(&mut ctx, &mut tasks, 7), Switch::Stay);
    assert_eq!(ctx.currently_running_task, 1);
    assert_eq!(tasks[1].state, TaskState::Running);
}

#[test]
fn schedule_falls_back_to_idle() {
    let mut tasks = vec![task(TaskState::Running), task(TaskState::Blocked)];
    let mut ctx = hart(1, 0, &[]);
    assert_eq!(schedule(&mut ctx, &mut tasks, 7), Switch::ToIdle { from: 1 });
    assert_eq!(ctx.currently_running_task, 0);
}

#[test]
fn schedule_does_not_requeue_idle_or_blocked() {
    let mut tasks = vec![task(TaskState::Running), task(TaskState::Ready)];
    let mut ctx = hart(0, 0, &[1]);
    assert_eq!(schedule(&mut ctx, &mut tasks, 1), Switch::ToUser { from: 0, to: 1 });
    assert!(ctx.scheduler.runqueue.is_empty());
}

#[test]
fn timer_wakes_due_sleepers_and_preempts() {
    let mut tasks = vec![task(TaskState::Running), task(TaskState::Running), task(TaskState::Sleeping), task(TaskState::Sleeping)];
    tasks[2].wake_up_at = 100;
    tasks[3].wake_up_at = 10_000;
    let mut ctx = hart(1, 0, &[]);
    ctx.scheduler.sleeping_tasks = vec![2, 3];
    let act = on_timer_interrupt(&mut ctx, &mut tasks, 200);
    assert!(act.reschedule);
    assert_eq!(act.rearm_after, TIMER_PERIOD_TICKS);
    assert_eq!(timer_deadline(200, act.rearm_after), 80_200);
    assert_eq!(ctx.scheduler.runqueue, VecDeque::from(vec![2]));
    assert_eq!(ctx.scheduler.sleeping_tasks, vec![3]);
    assert_eq!(tasks[2].state, TaskState::Ready);
    assert_eq!(tasks[3].state, TaskState::Sleeping);
}

#[test]
fn timer_preempts_after_a_time_slice() {
    let mut tasks = vec![task(TaskState::Running), task(TaskState::Running)];
    let mut ctx = hart(1, 0, &[]);
    assert!(!on_timer_interrupt(&mut ctx, &mut tasks, TIME_SLICE_TICKS).reschedule);
    assert!(on_timer_interrupt(&mut ctx, &mut tasks, TIME_SLICE_TICKS + 1).reschedule);
}

#[test]
fn new_tasks_go_round_robin() {
    let mut g = global();
    let mut cores = vec![hart(0, 0, &[]), hart(1, 1, &[]), hart(2, 2, &[])];
    assert_eq!(enqueue_new_task(&mut g, &mut cores, 5), 1);
    assert_eq!(enqueue_new_task(&mut g, &mut cores, 6), 2);
    assert_eq!(enqueue_new_task(&mut g, &mut cores, 7), 0);
    assert_eq!(cores[1].scheduler.runqueue, VecDeque::from(vec![5]));
    assert_eq!(cores[0].scheduler.runqueue, VecDeque::from(vec![7]));
}

#[test]
fn irq_wakes_the_oldest_waiter() {
    let mut g = global();
    let mut cores = vec![hart(0, 0, &[]), hart(1, 1, &[])];
    let mut tasks = vec![task(TaskState::Running), task(TaskState::Running), task(TaskState::Running), task(TaskState::Running)];
    let mut ctx = hart(2, 0, &[]);
    let sw = block_on_external_irq(&mut g, &mut ctx, &mut tasks, 10, 0);
    assert_eq!(sw, Switch::ToIdle { from: 2 });
    assert_eq!(tasks[2].state, TaskState::Blocked);
    let mut ctx3 = hart(3, 0, &[]);
    block_on_external_irq(&mut g, &mut ctx3, &mut tasks, 10, 0);
    assert_eq!(on_external_irq(&mut g, &mut cores, &mut tasks, 10), Some((2, 1)));
    assert_eq!(tasks[2].state, TaskState::Ready);
    assert_eq!(on_external_irq(&mut g, &mut cores, &mut tasks, 10), Some((3, 0)));
    assert_eq!(on_external_irq(&mut g, &mut cores, &mut tasks, 10), None);
    assert_eq!(on_external_irq(&mut g, &mut cores, &mut tasks, 11), None);
}

#[test]
fn exit_wakes_a_waiting_parent() {
    let mut g = global();
    let mut tasks = vec![task(TaskState::Running), task(TaskState::Running), task(TaskState::Running)];
    tasks[2].parent = Some(1);
    let mut ctx = hart(1, 0, &[]);
    // The caller marks the task blocked before it waits.
    tasks[1].state = TaskState::Blocked;
    assert_eq!(block_on_wait(&mut g, &mut ctx, &mut tasks, 1, 0), Switch::ToIdle { from: 1 });
    assert!(g.waiting_tasks.contains(&1));
    let mut cores = vec![hart(2, 0, &[])];
    tasks[2].state = TaskState::Zombie;
    let (woken, sw) = on_task_exit(&mut g, &mut cores, 0, &mut tasks, 2, 5);
    assert_eq!(woken, Some((1, 0)));
    assert!(!g.waiting_tasks.contains(&1));
    assert_eq!(sw, Switch::ToUser { from: 2, to: 1 });
    let (again, _) = on_task_exit(&mut g, &mut cores, 0, &mut tasks, 2, 6);
    assert_eq!(again, None);
}

#[test]
fn sleeping_sets_the_wake_up_time() {
    let mut tasks = vec![task(TaskState::Running), task(TaskState::Running)];
    let mut ctx = hart(1, 0, &[]);
    let sw = sleep_current_task(&mut ctx, &mut tasks, 1000, 5);
    assert_eq!(sw, Switch::ToIdle { from: 1 });
    assert_eq!(tasks[1].wake_up_at, 1000 + 50_000);
    assert_eq!(tasks[1].state, TaskState::Sleeping);
    assert_eq!(ctx.scheduler.sleeping_tasks, vec![1]);
}

#[test]
fn sleepers_stay_ordered_by_wake_up() {
    let mut s = SleepingTasks::new();
    s.push(1, 30);
    s.push(2, 10);
    s.push(3, 20);
    s.push(4, 10);
    let order: Vec<(u64, usize)> = s.nodes.iter().map(|n| (n.sleep_until, n.task)).collect();
    assert_eq!(order, vec![(10, 2), (10, 4), (20, 3), (30, 1)]);
    let alive = vec![true; 5];
    assert_eq!(s.with_tasks_to_wake_up(15, &alive), vec![2, 4]);
    assert_eq!(s.nodes, vec![SleepNode { sleep_until: 20, task: 3 }, SleepNode { sleep_until: 30, task: 1 }]);
    assert_eq!(s.with_tasks_to_wake_up(5, &alive), Vec::<usize>::new());
    assert_eq!(s.with_tasks_to_wake_up(100, &alive), vec![3, 1]);
    assert!(s.nodes.is_empty());
}

#[test]
fn sleepers_whose_task_is_gone_are_dropped() {
    let mut s = SleepingTasks::new();
    s.push(1, 10);
    s.push(2, 20);
    s.push(7, 25);
    s.push(3, 40);
    let alive = vec![true, false, true, true];
    assert_eq!(s.with_tasks_to_wake_up(30, &alive), vec![2]);
    assert_eq!(s.nodes, vec![SleepNode { sleep_until: 40, task: 3 }]);
}

#[test]
fn task_pool_finds_what_was_added() {
    let mut pool = TaskPool::new();
    assert_eq!(pool.get_task(Pid(7)), None);
    assert_eq!(pool.add_task(Pid(7), 700), 700);
    assert_eq!(pool.get_task(Pid(7)), Some(700));
    for i in 0..250u64 {
        pool.add_task(Pid(100 + i), i * 3);
    }
    assert_eq!(pool.get_task(Pid(7)), Some(700));
    assert_eq!(pool.get_task(Pid(100)), Some(0));
    assert_eq!(pool.get_task(Pid(349)), Some(747));
    assert_eq!(pool.get_task(Pid(350)), None);
    assert!(pool.slabs.len() >= 3);
    pool.add_task(Pid(7), 1);
    assert_eq!(pool.get_task(Pid(7)), Some(1));
}

fn vsfs_file(inum: u32) -> FileRef {
    let inner = INodeInner {
        ty: Type::File,
        link_count: 1,
        metadata: Metadata { dev: 0, sz: 0 },
        direct_blocks: [0; 12],
        indirect_block: 0,
    };
    FileRef::new(File { inode: INode { inum, inner }, offset: 0 })
}

#[test]
fn file_descriptors_reuse_the_lowest_free_slot() {
    let mut t = FileTable::init();
    assert_eq!(t.slots.len(), 3);
    assert!(matches!(t.get_file(0), Some(FileRef::Console)));
    assert_eq!(t.add_file(vsfs_file(5)), 3);
    assert!(matches!(t.get_file(3), Some(FileRef::Vsfs(f)) if f.inode.inum == 5));
    assert!(t.get_file(4).is_none());
    assert!(matches!(t.close_file(1), Some(FileRef::Console)));
    assert!(t.get_file(1).is_none());
    assert!(t.close_file(9).is_none());
    assert_eq!(t.add_file(Console::as_file()), 1);
    assert_eq!(t.add_file(vsfs_file(6)), 4);
    t.destroy();
    assert!(t.get_file(0).is_none());
}

#[test]
fn exit_turns_a_task_into_a_zombie() {
    let mut st = AtomicTaskState::from_state(TaskState::Running);
    let mut rt = TaskRuntime::new(None);
    rt.children.push(Pid(9));
    let mut files = FileTable::init();
    assert!(exit(&mut st, &mut rt, &mut files, 3));
    assert!(st.is(TaskState::Zombie));
    assert_eq!(rt.exit_code, 3);
    assert!(rt.children.is_empty());
    assert!(files.slots.is_empty());
    let mut done = AtomicTaskState::from_state(TaskState::Exited);
    let mut rt2 = TaskRuntime::new(None);
    let mut files2 = FileTable::init();
    assert!(!exit(&mut done, &mut rt2, &mut files2, 4));
    assert_eq!(rt2.exit_code, -1);
    assert_eq!(files2.slots.len(), 3);
}

#[test]
fn reaping_takes_the_first_zombie_child() {
    let mut children = vec![Pid(2), Pid(3), Pid(4)];
    let mut states = TaskStates { states: BTreeMap::new() };
    states.states.insert(2, TaskState::Running.code());
    states.states.insert(3, TaskState::Zombie.code());
    states.states.insert(4, TaskState::Zombie.code());
    assert_eq!(reap_zombie_child(&mut children, &mut states), Some(Pid(3)));
    assert_eq!(children, vec![Pid(2), Pid(4)]);
    assert_eq!(states.states.get(&3), Some(&TaskState::Exited.code()));
    assert_eq!(reap_zombie_child(&mut children, &mut states), Some(Pid(4)));
    assert_eq!(reap_zombie_child(&mut children, &mut states), None);
    assert_eq!(children, vec![Pid(2)]);
}

#[test]
fn trap_causes_map_to_actions() {
    assert_eq!(trap_action(TrapCause::ExternalIrq), TrapAction::ServeIrq);
    assert_eq!(trap_action(TrapCause::TimerInterrupt), TrapAction::Tick);
    assert_eq!(trap_action(TrapCause::Syscall), TrapAction::Syscall { return_pc_offset: 4 });
    assert_eq!(trap_action(TrapCause::LoadPageFault), TrapAction::PageFault { access: PTE_R });
    assert_eq!(trap_action(TrapCause::StorePageFault), TrapAction::PageFault { access: PTE_W });
    assert_eq!(trap_action(TrapCause::Unknown(2)), TrapAction::Fatal { cause: 2 });
}

#[test]
fn interrupts_wake_only_on_input() {
    let o = irq_outcome(10, 10, true);
    assert!(o.wake_waiters && !o.unhandled && o.complete);
    let o = irq_outcome(10, 10, false);
    assert!(!o.wake_waiters && !o.unhandled && o.complete);
    let o = irq_outcome(3, 10, true);
    assert!(!o.wake_waiters && o.unhandled && o.complete);
    let o = irq_outcome(0, 10, true);
    assert!(!o.wake_waiters && !o.unhandled && !o.complete);
}

#[test]
fn reaper_cleans_up_in_order() {
    let mut q = ReaperQueue::new();
    q.enqueue_for_reaper(Pid(4));
    q.enqueue_for_reaper(Pid(2));
    q.enqueue_for_reaper(Pid(9));
    assert_eq!(q.reaper_round(), vec![Pid(4), Pid(2), Pid(9)]);
    assert!(q.cleanup_queue.is_empty());
    assert_eq!(q.reaper_round(), Vec::<Pid>::new());
    assert_eq!(REAPER_SLEEP_MS, 5_000);
}

#[test]
fn trap_frame_registers() {
    let mut f = RiscvTrapFrame::initialize(VirtAddr::new(0x1_0078), VirtAddr::new(0x3fff_ffa0));
    assert_eq!(f.sepc, 0x1_0078);
    assert_eq!(f.regs[REG_SP], 0x3fff_ffa0);
    assert_eq!(f.regs.iter().filter(|r| **r != 0).count(), 1);
    f.regs[REG_A7] = 64;
    f.regs[REG_A0] = 1;
    f.regs[REG_A0 + 1] = 0x2000;
    f.regs[REG_A0 + 2] = 12;
    assert_eq!(f.get_syscall(), 64);
    assert_eq!(f.get_arg::<0>(), 1);
    assert_eq!(f.get_arg::<1>(), 0x2000);
    assert_eq!(f.get_arg::<2>(), 12);
    assert_eq!(f.get_arg::<7>(), 0);
    f.set_syscall_return_value(-38);
    assert_eq!(f.regs[REG_A0], (-38i64) as u64);
    f.set_per_core_ctx(0x8000_4000);
    assert_eq!(f.regs[REG_TP], 0x8000_4000);
}

#[test]
fn waiting_reaps_an_ended_child_or_blocks() {
    let mut state = AtomicTaskState::from_state(TaskState::Running);
    let mut states = TaskStates { states: BTreeMap::new() };
    let mut none: Vec<Pid> = Vec::new();
    assert_eq!(wait(&mut state, &mut none, &mut states), WaitOutcome::NoChildren);
    assert!(state.is(TaskState::Running));

    let mut children = vec![Pid(2), Pid(3)];
    states.states.insert(2, TaskState::Running.code());
    states.states.insert(3, TaskState::Zombie.code());
    assert_eq!(wait(&mut state, &mut children, &mut states), WaitOutcome::Reaped(Pid(3)));
    assert!(state.is(TaskState::Running));
    assert_eq!(children, vec![Pid(2)]);

    assert_eq!(wait(&mut state, &mut children, &mut states), WaitOutcome::Blocked);
    assert!(state.is(TaskState::Blocked));
    assert_eq!(children, vec![Pid(2)]);
}

#[test]
fn kernel_tasks_get_a_stack_frame_and_a_context() {
    let mut pool = efiks::page_table::FramePool::new();
    assert_eq!(
        efiks::task_life::create_kernel_task(VirtAddr::new(0x8020_0000), &mut pool).map(|_| ()),
        Err(efiks::error::Error::Oom)
    );
    assert!(pool.add(efiks::addr::PhysAddr::new(0x8100_0000)));
    let (frame, ctx) = efiks::task_life::create_kernel_task(VirtAddr::new(0x8020_0000), &mut pool).unwrap();
    assert_eq!(frame, efiks::addr::PhysAddr::new(0x8100_0000));
    assert_eq!(ctx.ra, 0x8020_0000);
    assert_eq!(ctx.sp, 0x8100_0000 + efiks::mappings::KERNEL_DIRECT_MAPPING_BASE + 0xfa0);
    assert_eq!(pool.len(), 0);
}
