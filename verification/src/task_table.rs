//! The pool of all tasks: slabs of task handles, so a stored task keeps its
//! place while others come and go, and an index from pid to place.
use vstd::prelude::*;
use slab::Slab;
use std::collections::BTreeMap;
use crate::task::Pid;

verus! {

broadcast use vstd::std_specs::btree::group_btree_axioms;

/// Tasks a new slab is made for.
pub const MAX_TASK_PER_SLAB: usize = 100;

#[verifier::external_type_specification]
#[verifier::external_body]
#[verifier::reject_recursive_types(T)]
pub struct ExSlab<T>(Slab<T>);

/// The values a slab holds, by key.
pub uninterp spec fn slab_contents(s: Slab<u64>) -> Map<usize, u64>;

/// `Slab::with_capacity`: an empty slab.
#[verifier::external_body]
fn slab_with_capacity(capacity: usize) -> (r: Slab<u64>)
    requires
        capacity <= MAX_TASK_PER_SLAB,
    ensures
        slab_contents(r).dom() =~= Set::empty(),
        slab_contents(r).dom().finite(),
{
    Slab::with_capacity(capacity)
}

/// `Slab::len`: the number of stored values.
#[verifier::external_body]
fn slab_len(s: &Slab<u64>) -> (r: usize)
    ensures
        r == slab_contents(*s).len(),
{
    s.len()
}

/// `Slab::capacity`: how many values fit without growing; never fewer than
/// are stored.
#[verifier::external_body]
fn slab_capacity(s: &Slab<u64>) -> (r: usize)
    ensures
        r >= slab_contents(*s).len(),
{
    s.capacity()
}

/// `Slab::insert`: stores `val` under a key that was free and returns the
/// key.
#[verifier::external_body]
fn slab_insert(s: &mut Slab<u64>, val: u64) -> (r: usize)
    requires
        slab_contents(*old(s)).len() < 0x0100_0000_0000_0000,
    ensures
        !slab_contents(*old(s)).contains_key(r),
        slab_contents(*final(s)) == slab_contents(*old(s)).insert(r, val),
        slab_contents(*final(s)).dom().finite(),
{
    s.insert(val)
}

/// `Slab::get`: the value stored under `key`, if any.
#[verifier::external_body]
fn slab_get(s: &Slab<u64>, key: usize) -> (r: Option<u64>)
    ensures
        r == (if slab_contents(*s).contains_key(key) {
            Some(slab_contents(*s)[key])
        } else {
            None::<u64>
        }),
{
    s.get(key).copied()
}

/// All tasks, by pid.
pub struct TaskPool {
    pub slabs: Vec<Slab<u64>>,
    pub pid_to_idx: BTreeMap<u64, (usize, usize)>,
}

impl TaskPool {
    /// The task stored for `pid`, if any.
    pub open spec fn lookup(&self, pid: u64) -> Option<u64> {
        if self.pid_to_idx@.contains_key(pid) {
            let (si, k) = self.pid_to_idx@[pid];
            if si < self.slabs@.len() && slab_contents(self.slabs@[si as int]).contains_key(k) {
                Some(slab_contents(self.slabs@[si as int])[k])
            } else {
                None
            }
        } else {
            None
        }
    }

    /// Every pid leads to a stored task, and no two pids share a place;
    /// no slab holds more than the tasks a slab is made for.
    pub open spec fn wf(&self) -> bool {
        &&& forall|p: u64| #[trigger] self.pid_to_idx@.contains_key(p) ==> self.lookup(p) is Some
        &&& forall|p: u64, q: u64|
            #![trigger self.pid_to_idx@[p], self.pid_to_idx@[q]]
            self.pid_to_idx@.contains_key(p) && self.pid_to_idx@.contains_key(q) && p != q
                ==> self.pid_to_idx@[p] != self.pid_to_idx@[q]
        &&& forall|i: int|
            0 <= i < self.slabs@.len() ==> slab_contents(#[trigger] self.slabs@[i]).len() <= MAX_TASK_PER_SLAB
                && slab_contents(self.slabs@[i]).dom().finite()
    }

    /// An empty pool.
    pub fn new() -> (r: TaskPool)
        ensures
            r.wf(),
            forall|p: u64| r.lookup(p) is None,
    {
        let r = TaskPool { slabs: Vec::new(), pid_to_idx: BTreeMap::new() };
        assert(r.pid_to_idx@ =~= Map::<u64, (usize, usize)>::empty());
        r
    }

    /// Stores `task` for `pid` in the first slab with room (below its
    /// capacity and below the tasks a slab is made for), or in a new slab,
    /// and answers it.
    pub fn add_task(&mut self, pid: Pid, task: u64) -> (r: u64)
        requires
            old(self).wf(),
            old(self).slabs@.len() < usize::MAX,
        ensures
            final(self).wf(),
            final(self).slabs@.len() <= old(self).slabs@.len() + 1,
            r == task,
            final(self).lookup(pid.0) == Some(task),
            forall|p: u64| p != pid.0 ==> #[trigger] final(self).lookup(p) == old(self).lookup(p),
    {
        proof {
            crate::page_meta::lemma_u64_keys_ordered();
        }
        let ghost old_pool = *self;
        let mut slab_idx = self.slabs.len();
        let mut i: usize = 0;
        while i < self.slabs.len()
            invariant_except_break
                slab_idx == self.slabs.len(),
            invariant
                i <= self.slabs.len(),
                *self == old_pool,
            ensures
                slab_idx <= self.slabs.len(),
                *self == old_pool,
                slab_idx < self.slabs.len() ==> slab_contents(self.slabs@[slab_idx as int]).len()
                    < MAX_TASK_PER_SLAB,
            decreases self.slabs.len() - i,
        {
            let len = slab_len(&self.slabs[i]);
            if len < slab_capacity(&self.slabs[i]) && len < MAX_TASK_PER_SLAB {
                slab_idx = i;
                break;
            }
            i += 1;
        }
        if slab_idx == self.slabs.len() {
            self.slabs.push(slab_with_capacity(MAX_TASK_PER_SLAB));
            assert(slab_contents(self.slabs@[slab_idx as int]).len() == 0);
        }
        let ghost before = self.slabs@;
        let mut slab = self.slabs.remove(slab_idx);
        let key = slab_insert(&mut slab, task);
        self.slabs.insert(slab_idx, slab);
        assert(self.slabs@ =~= before.update(slab_idx as int, slab));
        self.pid_to_idx.insert(pid.0, (slab_idx, key));
        proof {
            let si = slab_idx as int;
            assert forall|p: u64| p != pid.0 implies #[trigger] self.lookup(p) == old_pool.lookup(p) by {
                if old_pool.pid_to_idx@.contains_key(p) {
                    let (sp, kp) = old_pool.pid_to_idx@[p];
                    assert(old_pool.lookup(p) is Some);
                    if sp == slab_idx {
                        assert(kp != key);
                    }
                }
            }
            assert forall|p: u64| #[trigger] self.pid_to_idx@.contains_key(p) implies self.lookup(p) is Some by {
                if p != pid.0 {
                    assert(old_pool.pid_to_idx@.contains_key(p));
                    assert(old_pool.lookup(p) is Some);
                }
            }
            assert forall|p: u64, q: u64|
                #![trigger self.pid_to_idx@[p], self.pid_to_idx@[q]]
                self.pid_to_idx@.contains_key(p) && self.pid_to_idx@.contains_key(q) && p != q implies self.pid_to_idx@[p]
                    != self.pid_to_idx@[q] by {
                if p == pid.0 {
                    assert(old_pool.lookup(q) is Some);
                } else if q == pid.0 {
                    assert(old_pool.lookup(p) is Some);
                } else {
                    assert(old_pool.pid_to_idx@[p] != old_pool.pid_to_idx@[q]);
                }
            }
            assert forall|j: int| 0 <= j < self.slabs@.len() implies slab_contents(#[trigger] self.slabs@[j]).len()
                <= MAX_TASK_PER_SLAB && slab_contents(self.slabs@[j]).dom().finite() by {
                if j != si {
                    assert(self.slabs@[j] == before[j]);
                } else {
                    let c0 = slab_contents(before[si]);
                    assert(c0.dom().finite());
                    if si < old_pool.slabs@.len() {
                        assert(c0.len() < MAX_TASK_PER_SLAB);
                    } else {
                        assert(c0.len() == 0);
                    }
                    assert(slab_contents(slab) == c0.insert(key, task));
                    assert(slab_contents(slab).dom() =~= c0.dom().insert(key));
                }
            }
        }
        task
    }

    /// The task stored for `pid`, if any.
    pub fn get_task(&self, pid: Pid) -> (r: Option<u64>)
        ensures
            r == self.lookup(pid.0),
    {
        proof {
            crate::page_meta::lemma_u64_keys_ordered();
        }
        let (slab_idx, idx) = match self.pid_to_idx.get(&pid.0) {
            Some(v) => *v,
            None => return None,
        };
        if slab_idx >= self.slabs.len() {
            return None;
        }
        slab_get(&self.slabs[slab_idx], idx)
    }
}

} // verus!
