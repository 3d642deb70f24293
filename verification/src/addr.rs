//! Virtual, physical, kernel and user addresses.
//!
//! Addresses are 64-bit words: the kernel only targets RV64, where a machine
//! word is a `u64`.
use vstd::prelude::*;
use vstd::arithmetic::power2::is_pow2;
use core::marker::PhantomData;
use crate::error::Error;

verus! {

/// `x` rounded down to a multiple of `a`.
pub open spec fn align_down_spec(x: int, a: int) -> int {
    x - x % a
}

/// `x` rounded up to a multiple of `a`.
pub open spec fn align_up_spec(x: int, a: int) -> int {
    if x % a == 0 {
        x
    } else {
        x - x % a + a
    }
}

pub proof fn lemma_mod_facts(x: u64, a: u64)
    requires
        a > 0,
    ensures
        x % a <= x,
        x % a < a,
        (x - x % a) % (a as int) == 0,
{
    assert(x % a <= x && x % a < a) by (nonlinear_arith)
        requires
            a > 0,
    ;
    vstd::arithmetic::div_mod::lemma_fundamental_div_mod(x as int, a as int);
    vstd::arithmetic::div_mod::lemma_mod_multiples_basic(x as int / a as int, a as int);
    assert((x - x % a) == a * (x as int / a as int));
    vstd::arithmetic::mul::lemma_mul_is_commutative(a as int, x as int / a as int);
}

/// Rounding up lands on a multiple of `a` less than `a` past `x`.
pub proof fn lemma_align_up_facts(x: u64, a: u64)
    requires
        is_pow2(a as int),
    ensures
        x <= align_up_spec(x as int, a as int) < x + a,
        align_up_spec(x as int, a as int) % (a as int) == 0,
{
    reveal_with_fuel(is_pow2, 1);
    lemma_mod_facts(x, a);
    if x % a != 0 {
        vstd::arithmetic::div_mod::lemma_mod_add_multiples_vanish((x - x % a) as int, a as int);
    }
}

/// Rounds `x` down to a multiple of the power of two `align`.
pub fn align_down(x: u64, align: u64) -> (r: u64)
    requires
        is_pow2(align as int),
    ensures
        r == align_down_spec(x as int, align as int),
{
    proof {
        reveal_with_fuel(is_pow2, 1);
        lemma_mod_facts(x, align);
    }
    x - x % align
}

/// Rounds `x` up to a multiple of the power of two `align`.
pub fn align_up(x: u64, align: u64) -> (r: u64)
    requires
        is_pow2(align as int),
        align_up_spec(x as int, align as int) <= u64::MAX,
    ensures
        r == align_up_spec(x as int, align as int),
{
    proof {
        reveal_with_fuel(is_pow2, 1);
        lemma_mod_facts(x, align);
    }
    let rem = x % align;
    if rem == 0 {
        x
    } else {
        (x - rem) + align
    }
}

/// The signed reading of a 64-bit word (two's complement).
pub open spec fn signed(x: u64) -> int {
    if x <= i64::MAX {
        x as int
    } else {
        x - 0x1_0000_0000_0000_0000
    }
}

/// `base + amount` when it stays within the 64-bit address range.
pub open spec fn offset_spec(base: u64, amount: int) -> Option<u64> {
    if 0 <= base + amount <= u64::MAX {
        Some((base + amount) as u64)
    } else {
        None
    }
}

/// Adds a signed amount to a word, failing on wrap-around.
pub fn checked_offset_u64(base: u64, amount: i64) -> (r: Option<u64>)
    ensures
        r == offset_spec(base, amount as int),
{
    if amount < 0 {
        let m: u64 = ((-(amount + 1)) as u64) + 1;
        base.checked_sub(m)
    } else {
        base.checked_add(amount as u64)
    }
}

/// A virtual address.
#[derive(Copy, Clone, Debug, PartialEq, Eq, Structural)]
pub struct VirtAddr(pub u64);

impl View for VirtAddr {
    type V = u64;

    open spec fn view(&self) -> u64 {
        self.0
    }
}

impl VirtAddr {
    pub fn new(addr: u64) -> (r: Self)
        ensures
            r@ == addr,
    {
        VirtAddr(addr)
    }

    pub fn raw(&self) -> (r: u64)
        ensures
            r == self@,
    {
        self.0
    }

    /// Rounds up to a multiple of `page_size`, a power of two.
    pub fn align_up(&self, page_size: u64) -> (r: Self)
        requires
            is_pow2(page_size as int),
            align_up_spec(self@ as int, page_size as int) <= u64::MAX,
        ensures
            r@ == align_up_spec(self@ as int, page_size as int),
    {
        VirtAddr(align_up(self.0, page_size))
    }

    /// Rounds down to a multiple of `page_size`, a power of two.
    pub fn align_down(&self, page_size: u64) -> (r: Self)
        requires
            is_pow2(page_size as int),
        ensures
            r@ == align_down_spec(self@ as int, page_size as int),
    {
        VirtAddr(align_down(self.0, page_size))
    }

    /// Signed distance `self - other`, both read as signed words.
    pub fn difference(&self, other: VirtAddr) -> (r: i64)
        requires
            i64::MIN <= signed(self@) - signed(other@) <= i64::MAX,
        ensures
            r == signed(self@) - signed(other@),
    {
        let a = self.0;
        let b = other.0;
        let half: u64 = 0x7fff_ffff_ffff_ffff;
        if a <= half && b <= half {
            (a as i64) - (b as i64)
        } else if a > half && b > half {
            if a >= b {
                (a - b) as i64
            } else {
                -((b - a) as i64)
            }
        } else if a <= half {
            // b is negative when read as signed
            (a + (u64::MAX - b) + 1) as i64
        } else {
            // a is negative when read as signed
            let m = (u64::MAX - a) + b;
            -(m as i64) - 1
        }
    }

    /// `self + amount`, or `None` when it leaves the address range.
    pub fn offset_by(&self, amount: i64) -> (r: Option<Self>)
        ensures
            match r {
                Some(v) => offset_spec(self@, amount as int) == Some(v@),
                None => offset_spec(self@, amount as int).is_none(),
            },
    {
        match checked_offset_u64(self.0, amount) {
            Some(v) => Some(VirtAddr(v)),
            None => None,
        }
    }
}

/// A physical address.
#[derive(Copy, Clone, Debug, PartialEq, Eq, Structural)]
pub struct PhysAddr(pub u64);

impl View for PhysAddr {
    type V = u64;

    open spec fn view(&self) -> u64 {
        self.0
    }
}

impl PhysAddr {
    pub fn raw(&self) -> (r: u64)
        ensures
            r == self@,
    {
        self.0
    }

    pub fn new(addr: u64) -> (r: Self)
        ensures
            r@ == addr,
    {
        PhysAddr(addr)
    }

    /// `self + amount`, or `None` when it leaves the address range.
    pub fn offset_by(&self, amount: i64) -> (r: Option<Self>)
        ensures
            match r {
                Some(v) => offset_spec(self@, amount as int) == Some(v@),
                None => offset_spec(self@, amount as int).is_none(),
            },
    {
        match checked_offset_u64(self.0, amount) {
            Some(v) => Some(PhysAddr(v)),
            None => None,
        }
    }
}

/// A virtual address in the kernel's half of the address space.
#[derive(Copy, Clone, Debug, PartialEq, Eq, Structural)]
pub struct KernelVirtAddr(pub VirtAddr);

impl View for KernelVirtAddr {
    type V = u64;

    open spec fn view(&self) -> u64 {
        self.0@
    }
}

impl KernelVirtAddr {
    /// Wraps a virtual address; every address is accepted.
    pub fn new(addr: VirtAddr) -> (r: Result<Self, Error>)
        ensures
            r == Ok::<KernelVirtAddr, Error>(KernelVirtAddr(addr)),
    {
        Ok(KernelVirtAddr(addr))
    }

    /// `self + amount`, or `None` when it leaves the address range.
    pub fn offset_by(&self, amount: i64) -> (r: Option<Self>)
        ensures
            match r {
                Some(v) => offset_spec(self@, amount as int) == Some(v@),
                None => offset_spec(self@, amount as int).is_none(),
            },
    {
        match self.0.offset_by(amount) {
            Some(v) => Some(KernelVirtAddr(v)),
            None => None,
        }
    }

    /// The address, if it is aligned for `T`.
    pub fn as_ptr<T>(&self) -> (r: Result<u64, Error>)
        ensures
            r == (if self@ as nat % vstd::layout::align_of::<T>() == 0 {
                Ok::<u64, Error>(self@)
            } else {
                Err::<u64, Error>(Error::Unaligned)
            }),
    {
        if self.check_aligned::<T>() {
            Ok(self.raw())
        } else {
            Err(Error::Unaligned)
        }
    }

    /// The address, if it is aligned for `T`, for writing through.
    pub fn as_ptr_mut<T>(&self) -> (r: Result<u64, Error>)
        ensures
            r == (if self@ as nat % vstd::layout::align_of::<T>() == 0 {
                Ok::<u64, Error>(self@)
            } else {
                Err::<u64, Error>(Error::Unaligned)
            }),
    {
        self.as_ptr::<T>()
    }

    /// Whether the address is aligned for `T`.
    pub fn check_aligned<T>(&self) -> (r: bool)
        ensures
            r == (self@ as nat % vstd::layout::align_of::<T>() == 0),
    {
        proof {
            broadcast use vstd::layout::align_nonzero;
        }
        let a = core::mem::align_of::<T>() as u64;
        self.0.0 % a == 0
    }

    pub fn raw(&self) -> (r: u64)
        ensures
            r == self@,
    {
        self.0.0
    }
}

/// An aligned pointer into kernel memory, held as an address.
#[derive(Debug, PartialEq, Eq)]
pub struct KernelPtr<T> {
    pub addr: VirtAddr,
    pub marker: PhantomData<T>,
}

impl<T> Clone for KernelPtr<T> {
    fn clone(&self) -> (r: Self)
        ensures
            r.addr == self.addr,
    {
        KernelPtr { addr: self.addr, marker: PhantomData }
    }
}

impl<T> Copy for KernelPtr<T> {}

impl<T> KernelPtr<T> {
    /// A pointer to `addr`; fails when `addr` is null or not aligned for `T`.
    pub fn new(addr: VirtAddr) -> (r: Result<Self, Error>)
        ensures
            (addr@ != 0 && addr@ as nat % vstd::layout::align_of::<T>() == 0) <==> r.is_ok(),
            r.is_ok() ==> r->Ok_0.addr == addr,
            addr@ == 0 ==> r == Err::<Self, Error>(Error::InvalidArgs),
            (addr@ != 0 && r.is_err()) ==> r == Err::<Self, Error>(Error::Unaligned),
    {
        proof {
            broadcast use vstd::layout::align_nonzero;
        }
        let a = core::mem::align_of::<T>() as u64;
        if addr.0 == 0 {
            Err(Error::InvalidArgs)
        } else if addr.0 % a == 0 {
            Ok(KernelPtr { addr, marker: PhantomData })
        } else {
            Err(Error::Unaligned)
        }
    }

    /// The address pointed to.
    pub fn as_ptr(&self) -> (r: u64)
        ensures
            r == self.addr@,
    {
        self.addr.0
    }

    /// The address pointed to, for writing through.
    pub fn as_ptr_mut(&self) -> (r: u64)
        ensures
            r == self.addr@,
    {
        self.addr.0
    }

    pub fn addr(&self) -> (r: u64)
        ensures
            r == self.addr@,
    {
        self.addr.0
    }
}

/// A non-null userspace buffer address.
#[derive(Copy, Clone, Debug, PartialEq, Eq, Structural)]
pub struct UserBuf(pub VirtAddr);

impl UserBuf {
    /// `None` for the null address.
    pub fn new(addr: u64) -> (r: Option<Self>)
        ensures
            r == (if addr != 0 { Some(UserBuf(VirtAddr(addr))) } else { None::<UserBuf> }),
    {
        if addr != 0 {
            Some(UserBuf(VirtAddr(addr)))
        } else {
            None
        }
    }
}

/// A non-null, writable userspace buffer address.
#[derive(Copy, Clone, Debug, PartialEq, Eq, Structural)]
pub struct UserBufMut(pub UserBuf);

impl UserBufMut {
    /// `None` for the null address.
    pub fn new(addr: u64) -> (r: Option<Self>)
        ensures
            r == (if addr != 0 { Some(UserBufMut(UserBuf(VirtAddr(addr)))) } else { None::<UserBufMut> }),
    {
        match UserBuf::new(addr) {
            Some(u) => Some(UserBufMut(u)),
            None => None,
        }
    }
}

/// A pointer into userspace to a value of type `T`.
#[derive(Debug, PartialEq, Eq)]
pub struct UserPtr<T> {
    pub addr: VirtAddr,
    pub marker: PhantomData<T>,
}

impl<T> Clone for UserPtr<T> {
    fn clone(&self) -> (r: Self)
        ensures
            r.addr == self.addr,
    {
        UserPtr { addr: self.addr, marker: PhantomData }
    }
}

impl<T> Copy for UserPtr<T> {}

impl<T> UserPtr<T> {
    pub fn new(addr: u64) -> (r: Self)
        ensures
            r.addr@ == addr,
    {
        UserPtr { addr: VirtAddr(addr), marker: PhantomData }
    }

    /// The pointer `count` elements further, or `None` when the address
    /// leaves the address range.
    pub fn offset(&self, count: i64) -> (r: Option<Self>)
        requires
            i64::MIN <= count * vstd::layout::size_of::<T>() <= i64::MAX,
            vstd::layout::size_of::<T>() <= i64::MAX,
        ensures
            match r {
                Some(v) => offset_spec(self.addr@, count * vstd::layout::size_of::<T>()) == Some(v.addr@),
                None => offset_spec(self.addr@, count * vstd::layout::size_of::<T>()).is_none(),
            },
    {
        let sz = core::mem::size_of::<T>() as i64;
        match self.addr.offset_by(count * sz) {
            Some(v) => Some(UserPtr { addr: v, marker: PhantomData }),
            None => None,
        }
    }

    pub fn is_null(&self) -> (r: bool)
        ensures
            r == (self.addr@ == 0),
    {
        self.addr.0 == 0
    }

    pub fn raw(&self) -> (r: u64)
        ensures
            r == self.addr@,
    {
        self.addr.0
    }
}

impl<T> UserPtr<UserPtr<T>> {
    /// Walks an array of user pointers, starting at `self`.
    pub fn iter(&self) -> (r: UserPtrIterator<T>)
        ensures
            r.cur.addr == self.addr,
    {
        UserPtrIterator { cur: UserPtr { addr: self.addr, marker: PhantomData } }
    }
}

/// Cursor over an array of user pointers.
pub struct UserPtrIterator<T> {
    pub cur: UserPtr<UserPtr<T>>,
}

impl<T> UserPtrIterator<T> {
    /// The address of the next element to read, moving the cursor one
    /// element on; `None` when the cursor cannot move without wrapping.
    pub fn next_slot(&mut self) -> (r: Option<UserPtr<UserPtr<T>>>)
        requires
            vstd::layout::size_of::<UserPtr<T>>() <= i64::MAX,
        ensures
            match r {
                Some(slot) => {
                    &&& slot.addr == old(self).cur.addr
                    &&& offset_spec(old(self).cur.addr@, vstd::layout::size_of::<UserPtr<T>>() as int)
                        == Some(final(self).cur.addr@)
                },
                None => {
                    &&& offset_spec(old(self).cur.addr@, vstd::layout::size_of::<UserPtr<T>>() as int).is_none()
                    &&& final(self).cur.addr == old(self).cur.addr
                },
            },
    {
        let next = self.cur.offset(1);
        match next {
            Some(n) => {
                let slot = UserPtr { addr: self.cur.addr, marker: PhantomData };
                self.cur = n;
                Some(slot)
            },
            None => None,
        }
    }
}

} // verus!
