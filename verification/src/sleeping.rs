//! Sleeping tasks ordered by wake-up time.
use vstd::prelude::*;
use crate::sched::TaskId;

verus! {

/// A task and the time it sleeps until.
#[derive(Copy, Clone, Debug, PartialEq, Eq, Structural)]
pub struct SleepNode {
    pub sleep_until: u64,
    pub task: TaskId,
}

/// Sleeping tasks, earliest wake-up first.
pub struct SleepingTasks {
    pub nodes: Vec<SleepNode>,
}

pub open spec fn sorted(s: Seq<SleepNode>) -> bool {
    forall|i: int, j: int| 0 <= i <= j < s.len() ==> #[trigger] s[i].sleep_until <= #[trigger] s[j].sleep_until
}

/// The tasks of `s`, in order, that are still alive by `alive`.
pub open spec fn live_tasks(s: Seq<SleepNode>, alive: Seq<bool>) -> Seq<TaskId>
    decreases s.len(),
{
    if s.len() == 0 {
        Seq::empty()
    } else {
        let rest = live_tasks(s.drop_last(), alive);
        let t = s.last().task;
        if t < alive.len() && alive[t as int] {
            rest.push(t)
        } else {
            rest
        }
    }
}

impl SleepingTasks {
    /// No sleepers.
    pub fn new() -> (r: Self)
        ensures
            r.nodes@.len() == 0,
    {
        SleepingTasks { nodes: Vec::new() }
    }

    /// Adds `task`, sleeping until `sleep_until`, after every sleeper that
    /// wakes no later.
    pub fn push(&mut self, task: TaskId, sleep_until: u64)
        requires
            sorted(old(self).nodes@),
        ensures
            sorted(final(self).nodes@),
            exists|pos: int|
                0 <= pos <= old(self).nodes@.len() && final(self).nodes@ == old(self).nodes@.insert(
                    pos,
                    SleepNode { sleep_until, task },
                ),
    {
        let mut pos: usize = 0;
        while pos < self.nodes.len() && self.nodes[pos].sleep_until <= sleep_until
            invariant
                pos <= self.nodes@.len(),
                self.nodes@ == old(self).nodes@,
                forall|k: int| 0 <= k < pos ==> #[trigger] self.nodes@[k].sleep_until <= sleep_until,
            decreases self.nodes@.len() - pos,
        {
            pos = pos + 1;
        }
        let node = SleepNode { sleep_until, task };
        let ghost s0 = self.nodes@;
        self.nodes.insert(pos, node);
        proof {
            s0.insert_ensures(pos as int, node);
            let n = self.nodes@;
            assert forall|i: int, j: int| 0 <= i <= j < n.len() implies #[trigger] n[i].sleep_until <= #[trigger] n[j].sleep_until by {
                if i < pos && j < pos {
                } else if i < pos && j == pos {
                } else if i < pos && j > pos {
                    assert(n[j] == s0[j - 1]);
                    assert(s0[i].sleep_until <= s0[j - 1].sleep_until);
                } else if i == pos && j > pos {
                    assert(n[j] == s0[j - 1]);
                    assert(!(s0[pos as int].sleep_until <= sleep_until));
                    assert(s0[pos as int].sleep_until <= s0[j - 1].sleep_until);
                } else if i > pos {
                    assert(n[i] == s0[i - 1] && n[j] == s0[j - 1]);
                    assert(s0[i - 1].sleep_until <= s0[j - 1].sleep_until);
                }
            }
        }
    }

    /// Removes the sleepers whose time has come and returns those of their
    /// tasks that are still alive (`alive[t]` for task `t`; a task past the
    /// end of `alive` is gone), earliest wake-up first. Sleepers whose task
    /// is gone are dropped.
    pub fn with_tasks_to_wake_up(&mut self, current_time: u64, alive: &Vec<bool>) -> (r: Vec<TaskId>)
        requires
            sorted(old(self).nodes@),
        ensures
            sorted(final(self).nodes@),
            final(self).nodes@.len() <= old(self).nodes@.len(),
            ({
                let k = old(self).nodes@.len() - final(self).nodes@.len();
                &&& final(self).nodes@ == old(self).nodes@.skip(k)
                &&& r@ == live_tasks(old(self).nodes@.take(k), alive@)
                &&& forall|i: int| 0 <= i < k ==> old(self).nodes@[i].sleep_until <= current_time
                &&& forall|i: int| k <= i < old(self).nodes@.len() ==> current_time < old(self).nodes@[i].sleep_until
            }),
    {
        let mut woken: Vec<TaskId> = Vec::new();
        let mut k: usize = 0;
        proof {
            assert(self.nodes@.take(0) =~= Seq::<SleepNode>::empty());
        }
        while k < self.nodes.len() && self.nodes[k].sleep_until <= current_time
            invariant
                k <= self.nodes@.len(),
                self.nodes@ == old(self).nodes@,
                woken@ == live_tasks(self.nodes@.take(k as int), alive@),
                forall|i: int| 0 <= i < k ==> #[trigger] self.nodes@[i].sleep_until <= current_time,
            decreases self.nodes@.len() - k,
        {
            let t = self.nodes[k].task;
            proof {
                assert(self.nodes@.take(k + 1).drop_last() =~= self.nodes@.take(k as int));
                assert(self.nodes@.take(k + 1).last() == self.nodes@[k as int]);
            }
            if t < alive.len() && alive[t] {
                woken.push(t);
            }
            k = k + 1;
        }
        let mut rest: Vec<SleepNode> = Vec::new();
        let mut j: usize = k;
        while j < self.nodes.len()
            invariant
                k <= j <= self.nodes@.len(),
                self.nodes@ == old(self).nodes@,
                rest@ == self.nodes@.subrange(k as int, j as int),
            decreases self.nodes@.len() - j,
        {
            rest.push(self.nodes[j]);
            j = j + 1;
            proof {
                assert(rest@ =~= self.nodes@.subrange(k as int, j as int));
            }
        }
        proof {
            let s = old(self).nodes@;
            assert forall|i: int| k <= i < s.len() implies current_time < s[i].sleep_until by {
                assert(s[k as int].sleep_until <= s[i].sleep_until);
            }
        }
        self.nodes = rest;
        woken
    }
}

} // verus!
