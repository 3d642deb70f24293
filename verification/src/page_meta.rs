//! Reference counts of the physical pages mapped into user address spaces.
use vstd::prelude::*;
use std::collections::BTreeMap;
use crate::addr::PhysAddr;
use crate::error::Error;

verus! {

broadcast use vstd::std_specs::btree::group_btree_axioms, vstd::laws_cmp::group_laws_cmp;

/// Reference counts per physical page; a page without an entry is not shared.
pub struct PageMetadataTable {
    pub map: BTreeMap<u64, u16>,
}

impl View for PageMetadataTable {
    type V = Map<u64, u16>;

    open spec fn view(&self) -> Map<u64, u16> {
        self.map@
    }
}

/// The table after `add(addr)`: a new page starts with one reference.
pub open spec fn add_spec(m: Map<u64, u16>, addr: u64) -> Map<u64, u16> {
    if m.contains_key(addr) {
        m
    } else {
        m.insert(addr, 1)
    }
}

/// The table after `remove(addr)` of a page with count `m[addr]`: one
/// reference less, and no entry once none is left.
pub open spec fn remove_spec(m: Map<u64, u16>, addr: u64) -> Map<u64, u16> {
    if !m.contains_key(addr) {
        m
    } else if m[addr] == 1 {
        m.remove(addr)
    } else {
        m.insert(addr, (m[addr] - 1) as u16)
    }
}

/// `u64` keys order as integers do.
pub proof fn lemma_u64_keys_ordered()
    ensures
        vstd::laws_cmp::obeys_cmp::<u64>(),
{
}

/// `u32` keys order as integers do.
pub proof fn lemma_u32_keys_ordered()
    ensures
        vstd::laws_cmp::obeys_cmp::<u32>(),
{
}

/// `usize` keys order as integers do.
pub proof fn lemma_usize_keys_ordered()
    ensures
        vstd::laws_cmp::obeys_cmp::<usize>(),
{
}

impl PageMetadataTable {
    /// Every recorded page has at least one reference.
    pub open spec fn wf(&self) -> bool {
        forall|a: u64| #[trigger] self@.contains_key(a) ==> self@[a] > 0
    }

    /// An empty table.
    pub fn new() -> (r: Self)
        ensures
            r@ == Map::<u64, u16>::empty(),
            r.wf(),
    {
        PageMetadataTable { map: BTreeMap::new() }
    }

    /// The reference count of `addr`, if the page is recorded.
    pub fn refcount(&self, addr: PhysAddr) -> (r: Option<u16>)
        ensures
            r == (if self@.contains_key(addr@) { Some(self@[addr@]) } else { None::<u16> }),
    {
        match self.map.get(&addr.0) {
            Some(c) => Some(*c),
            None => None,
        }
    }
}

/// Records a newly mapped page with one reference; a page that is already
/// recorded is refused with `AlreadyExists` and keeps its count.
pub fn add(table: &mut PageMetadataTable, addr: PhysAddr) -> (r: Result<(), Error>)
    requires
        old(table).wf(),
    ensures
        final(table).wf(),
        final(table)@ == add_spec(old(table)@, addr@),
        r == (if old(table)@.contains_key(addr@) {
            Err::<(), Error>(Error::AlreadyExists)
        } else {
            Ok::<(), Error>(())
        }),
{
    proof {
        lemma_u64_keys_ordered();
    }
    if table.map.contains_key(&addr.0) {
        Err(Error::AlreadyExists)
    } else {
        table.map.insert(addr.0, 1);
        assert(table@ == old(table)@.insert(addr@, 1u16));
        assert forall|a: u64| #[trigger] table@.contains_key(a) implies table@[a] > 0 by {
            if a != addr@ {
                assert(old(table)@.contains_key(a));
            }
        }
        Ok(())
    }
}

/// Drops one reference to `addr` and returns the references left; the entry
/// goes away when none is left. An unknown page gives `NotFound`.
pub fn remove(table: &mut PageMetadataTable, addr: PhysAddr) -> (r: Result<u16, Error>)
    requires
        old(table).wf(),
    ensures
        final(table).wf(),
        final(table)@ == remove_spec(old(table)@, addr@),
        r == (if old(table)@.contains_key(addr@) {
            Ok::<u16, Error>((old(table)@[addr@] - 1) as u16)
        } else {
            Err::<u16, Error>(Error::NotFound)
        }),
{
    proof {
        lemma_u64_keys_ordered();
    }
    let count = match table.map.get(&addr.0) {
        Some(c) => *c,
        None => {
            return Err(Error::NotFound);
        },
    };
    proof {
        assert(table@.contains_key(addr@) && table@[addr@] == count);
    }
    let new_val = count - 1;
    if new_val == 0 {
        table.map.remove(&addr.0);
    } else {
        table.map.insert(addr.0, new_val);
    }
    proof {
        assert(table@ =~= remove_spec(old(table)@, addr@));
    }
    Ok(new_val)
}

/// The table after one more reference to `addr`: a page not counted yet
/// starts with one reference, a counted one gets one more, unless its count
/// is already the largest a `u16` holds.
pub open spec fn share_spec(m: Map<u64, u16>, addr: u64) -> Map<u64, u16> {
    if !m.contains_key(addr) {
        m.insert(addr, 1)
    } else if m[addr] < u16::MAX {
        m.insert(addr, (m[addr] + 1) as u16)
    } else {
        m
    }
}

/// Records one more reference to `addr` (a page mapped once more) and
/// returns its count. A count already at the largest `u16` is refused with
/// `Overflow` and kept.
pub fn share(table: &mut PageMetadataTable, addr: PhysAddr) -> (r: Result<u16, Error>)
    requires
        old(table).wf(),
    ensures
        final(table).wf(),
        final(table)@ == share_spec(old(table)@, addr@),
        r == (if !old(table)@.contains_key(addr@) {
            Ok::<u16, Error>(1)
        } else if old(table)@[addr@] < u16::MAX {
            Ok::<u16, Error>((old(table)@[addr@] + 1) as u16)
        } else {
            Err::<u16, Error>(Error::Overflow)
        }),
{
    proof {
        lemma_u64_keys_ordered();
    }
    let count: u16 = match table.map.get(&addr.0) {
        Some(c) => *c,
        None => 0,
    };
    if count == u16::MAX {
        return Err(Error::Overflow);
    }
    table.map.insert(addr.0, count + 1);
    proof {
        assert(table@ =~= share_spec(old(table)@, addr@));
        assert forall|a: u64| #[trigger] table@.contains_key(a) implies table@[a] > 0 by {
            if a != addr@ {
                assert(old(table)@.contains_key(a));
            }
        }
    }
    Ok(count + 1)
}

/// The table after one more reference to each page of `s`, in order.
pub open spec fn share_all(m: Map<u64, u16>, s: Seq<u64>) -> Map<u64, u16>
    decreases s.len(),
{
    if s.len() == 0 {
        m
    } else {
        share_spec(share_all(m, s.drop_last()), s.last())
    }
}

/// How often `p` occurs in `s`.
pub open spec fn occurrences(s: Seq<u64>, p: u64) -> nat
    decreases s.len(),
{
    if s.len() == 0 {
        0
    } else {
        occurrences(s.drop_last(), p) + if s.last() == p {
            1nat
        } else {
            0nat
        }
    }
}

/// The count of `p` in `m`, 0 when it is not counted.
pub open spec fn count_or_zero(m: Map<u64, u16>, p: u64) -> nat {
    if m.contains_key(p) {
        m[p] as nat
    } else {
        0
    }
}

/// Recording the references of `a` and then those of `b` records those of
/// `a + b`.
pub proof fn lemma_share_all_concat(m: Map<u64, u16>, a: Seq<u64>, b: Seq<u64>)
    ensures
        share_all(m, a + b) == share_all(share_all(m, a), b),
    decreases b.len(),
{
    if b.len() == 0 {
        assert(a + b =~= a);
    } else {
        assert((a + b).drop_last() =~= a + b.drop_last());
        assert((a + b).last() == b.last());
        lemma_share_all_concat(m, a, b.drop_last());
    }
}

/// Law: every reference recorded adds one to its page's count, a page not
/// counted before starting from none, as long as the count fits a `u16`;
/// a page with no reference recorded keeps its count.
pub proof fn lemma_share_all_counts(m: Map<u64, u16>, s: Seq<u64>, p: u64)
    requires
        count_or_zero(m, p) + occurrences(s, p) <= u16::MAX,
    ensures
        count_or_zero(share_all(m, s), p) == count_or_zero(m, p) + occurrences(s, p),
        share_all(m, s).contains_key(p) == (m.contains_key(p) || occurrences(s, p) > 0),
    decreases s.len(),
{
    if s.len() > 0 {
        lemma_share_all_counts(m, s.drop_last(), p);
    }
}

/// Recording a new page and dropping its reference again leaves the table as
/// it was, and reports that no reference is left.
pub proof fn lemma_add_then_remove(m: Map<u64, u16>, addr: u64)
    requires
        !m.contains_key(addr),
    ensures
        remove_spec(add_spec(m, addr), addr) == m,
        add_spec(m, addr)[addr] - 1 == 0,
{
    assert(remove_spec(add_spec(m, addr), addr) =~= m);
}

} // verus!
