//! Emulated atomic operations.
//!
//! Where no native primitive fits a location, an operation on it is made
//! indivisible by a spinlock: the operation takes the lock, reads and writes
//! the location plainly, and releases the lock. There are 64 locks in a table,
//! and the address of the location decides which of them guards it, so that
//! all operations on one location meet at one lock.
//!
//! A lock is held only while one operation runs. An operation therefore
//! finds the lock of its location free and leaves it free: to call one while
//! that lock is held would be to wait for a release that never comes.
//!
//! A lock cell here remembers with which ordering it was last taken and
//! released, so that what an operation did to the table can be stated.

use vstd::prelude::*;
use core::sync::atomic::Ordering;
use crate::location::Location;
use crate::order::{acquire_order, release_order, lock_acquire_order, lock_release_order, MemoryOrder};
use crate::pattern::{
    and_bytes,
    bitwise_and,
    bitwise_or,
    bitwise_xor,
    difference_bytes,
    larger,
    less_signed,
    less_unsigned,
    or_bytes,
    same_bytes,
    smaller,
    sum_bytes,
    Sign,
    wrapping_difference,
    wrapping_sum,
    xor_bytes,
};

verus! {

/// The number of locks in a table.
pub const LOCKS: usize = 64;

/// What a thread that wants a lock does next.
#[derive(Clone, Copy, Debug)]
pub enum LockStep {
    /// Try to change the state word from free to locked.
    Attempt,
    /// Read the state word without trying to change it.
    Wait,
    /// The lock is held.
    Held,
}

impl LockStep {
    /// The attempts that a thread still has to make on a lock that nobody
    /// else wants.
    pub open spec fn attempts_left(self) -> nat {
        match self {
            LockStep::Held => 0,
            _ => 1,
        }
    }

    /// Whether the lock is held.
    pub fn is_held(&self) -> (r: bool)
        ensures
            r == (self is Held),
    {
        match self {
            LockStep::Held => true,
            _ => false,
        }
    }
}

/// A lock cell: a state word that is 0 while the lock is free and 1 while it
/// is held.
#[derive(Debug)]
pub struct SpinLock {
    state: usize,
    acquired: Option<MemoryOrder>,
    released: Option<MemoryOrder>,
}

impl SpinLock {
    /// Whether the lock is held.
    pub closed spec fn is_locked(&self) -> bool {
        self.state != 0
    }

    /// The ordering with which the lock was last taken, if it ever was.
    pub closed spec fn acquired_with(&self) -> Option<Ordering> {
        match self.acquired {
            Some(o) => Some(o.ordering()),
            None => None,
        }
    }

    /// The ordering with which the lock was last released, if it ever was.
    pub closed spec fn released_with(&self) -> Option<Ordering> {
        match self.released {
            Some(o) => Some(o.ordering()),
            None => None,
        }
    }

    /// A free lock that was never taken.
    pub fn new() -> (r: SpinLock)
        ensures
            !r.is_locked(),
            r.acquired_with() is None,
            r.released_with() is None,
    {
        SpinLock { state: 0, acquired: None, released: None }
    }

    /// The step that follows an attempt to take the lock: the lock is held if
    /// the state word was exchanged, and the thread waits if it was not.
    pub fn after_attempt(exchanged: bool) -> (r: LockStep)
        ensures
            exchanged ==> r is Held,
            !exchanged ==> r is Wait,
    {
        if exchanged {
            LockStep::Held
        } else {
            LockStep::Wait
        }
    }

    /// The step that follows a read of the state word while waiting: the
    /// thread attempts again once it has seen the lock free, and goes on
    /// waiting until then.
    pub fn after_observation(word: usize) -> (r: LockStep)
        ensures
            word == 0 ==> r is Attempt,
            word != 0 ==> r is Wait,
    {
        if word == 0 {
            LockStep::Attempt
        } else {
            LockStep::Wait
        }
    }

    /// One attempt to take the lock: changes the state word from free to
    /// locked if it is free, and leaves it as it is if not. `order` is the
    /// ordering of the exchange where it takes place.
    pub fn try_lock(&mut self, order: Ordering) -> (exchanged: bool)
        ensures
            exchanged == !old(self).is_locked(),
            final(self).is_locked(),
            final(self).released_with() == old(self).released_with(),
            exchanged ==> final(self).acquired_with() == Some(order),
            !exchanged ==> final(self).acquired_with() == old(self).acquired_with(),
    {
        if self.state == 0 {
            self.state = 1;
            self.acquired = Some(MemoryOrder::of(order));
            true
        } else {
            false
        }
    }

    /// Takes the lock for an operation of ordering `order`: attempts to take
    /// it, and after a failed attempt waits until it has seen the lock free
    /// before it attempts again. The lock is free on entry, so the first
    /// attempt takes it.
    pub fn lock(&mut self, order: Ordering)
        requires
            !old(self).is_locked(),
        ensures
            final(self).is_locked(),
            final(self).acquired_with() == Some(acquire_order(order)),
            final(self).released_with() == old(self).released_with(),
    {
        let success_order = lock_acquire_order(order);
        let mut step = LockStep::Attempt;
        while !step.is_held()
            invariant
                step is Held ==> self.is_locked() && self.acquired_with() == Some(
                    acquire_order(order),
                ),
                !(step is Held) ==> step is Attempt && !self.is_locked(),
                self.released_with() == old(self).released_with(),
                success_order == acquire_order(order),
            decreases step.attempts_left(),
        {
            match step {
                LockStep::Attempt => {
                    let exchanged = self.try_lock(success_order);
                    step = SpinLock::after_attempt(exchanged);
                },
                LockStep::Wait => {
                    step = SpinLock::after_observation(self.state);
                },
                LockStep::Held => {},
            }
        }
    }

    /// Releases the lock after an operation of ordering `order`.
    pub fn unlock(&mut self, order: Ordering)
        ensures
            !final(self).is_locked(),
            final(self).released_with() == Some(release_order(order)),
            final(self).acquired_with() == old(self).acquired_with(),
    {
        self.state = 0;
        self.released = Some(MemoryOrder::of(lock_release_order(order)));
    }

    /// Whether the lock is held.
    pub fn locked(&self) -> (r: bool)
        ensures
            r == self.is_locked(),
    {
        self.state != 0
    }

    /// The ordering with which the lock was last taken, if it ever was.
    pub fn last_acquire(&self) -> (r: Option<Ordering>)
        ensures
            r == self.acquired_with(),
    {
        match self.acquired {
            Some(o) => Some(o.to_ordering()),
            None => None,
        }
    }

    /// The ordering with which the lock was last released, if it ever was.
    pub fn last_release(&self) -> (r: Option<Ordering>)
        ensures
            r == self.released_with(),
    {
        match self.released {
            Some(o) => Some(o.to_ordering()),
            None => None,
        }
    }
}

/// The index of the lock that guards the location at `addr`. The lowest four
/// bits of the address do not count, so that all bytes of a 16-byte block share
/// a lock. The next six bits give an index, and the bits from the twentieth up
/// perturb it, so that equal offsets into different objects spread over the
/// table.
pub open spec fn lock_index(addr: usize) -> usize {
    let hash = addr >> 4;
    let low = hash & 63;
    ((hash >> 16) ^ low) & 63
}

/// The index of the lock that guards the location at `addr`.
pub fn lock_for_addr(addr: usize) -> (index: usize)
    ensures
        index == lock_index(addr),
        index < LOCKS,
{
    let mut hash: usize = addr >> 4;
    let low: usize = hash & (LOCKS - 1);
    hash >>= 16;
    hash ^= low;
    let index: usize = hash & (LOCKS - 1);
    assert(index < 64) by (bit_vector)
        requires
            index == hash & 63,
    ;
    index
}

/// Every address has a lock in the table.
pub proof fn law_every_address_has_a_lock(addr: usize)
    ensures
        lock_index(addr) < LOCKS,
{
    let hash = addr >> 4;
    let mixed = (hash >> 16) ^ (hash & 63);
    assert(mixed & 63 < 64) by (bit_vector);
}

/// Addresses in one 16-byte block have the same lock.
pub proof fn law_one_block_one_lock(a: usize, b: usize)
    requires
        a >> 4 == b >> 4,
    ensures
        lock_index(a) == lock_index(b),
{
}

/// The table of locks.
#[derive(Debug)]
pub struct SpinLockTable {
    cells: Vec<SpinLock>,
}

impl View for SpinLockTable {
    type V = Seq<SpinLock>;

    /// The lock cells in the order of their indices.
    closed spec fn view(&self) -> Seq<SpinLock> {
        self.cells@
    }
}

/// Proof that the lock for an address is held, and the ordering of the
/// operation for which it was taken.
pub struct LockGuard {
    index: usize,
    order: MemoryOrder,
}

impl LockGuard {
    #[verifier::type_invariant]
    spec fn in_table(self) -> bool {
        self.index < LOCKS
    }

    /// The index of the lock that is held.
    pub closed spec fn index(&self) -> usize {
        self.index
    }

    /// The ordering with which the lock will be released.
    pub closed spec fn order(&self) -> Ordering {
        self.order.ordering()
    }

    /// Changes the ordering with which the lock will be released.
    pub fn set_order(&mut self, order: Ordering)
        ensures
            final(self).order() == order,
            final(self).index() == old(self).index(),
    {
        proof {
            use_type_invariant(&*self);
        }
        self.order = MemoryOrder::of(order);
    }

    /// Releases the lock.
    pub fn release(self, locks: &mut SpinLockTable)
        ensures
            final(locks).released(old(locks), self.index(), self.order()),
    {
        proof {
            use_type_invariant(&self);
            use_type_invariant(&*locks);
        }
        locks.cells[self.index].unlock(self.order.to_ordering());
    }
}

impl SpinLockTable {
    #[verifier::type_invariant]
    spec fn full(self) -> bool {
        self.cells@.len() == LOCKS
    }

    /// The lock cell at `index`.
    pub open spec fn cell_at(&self, index: usize) -> SpinLock {
        self@[index as int]
    }

    /// The lock cell that guards the location at `addr`.
    pub open spec fn cell_for(&self, addr: usize) -> SpinLock {
        self@[lock_index(addr) as int]
    }

    /// Whether this is the table `before` with the cell at `index` taken for
    /// an operation of ordering `order`.
    pub open spec fn acquired(
        &self,
        before: &SpinLockTable,
        index: usize,
        order: Ordering,
    ) -> bool {
        &&& self@.len() == before@.len()
        &&& index < self@.len()
        &&& forall|j: int| 0 <= j < self@.len() && j != index ==> self@[j] == before@[j]
        &&& self.cell_at(index).is_locked()
        &&& self.cell_at(index).acquired_with() == Some(acquire_order(order))
        &&& self.cell_at(index).released_with() == before.cell_at(index).released_with()
    }

    /// Whether this is the table `before` with the cell at `index` released
    /// after an operation of ordering `order`.
    pub open spec fn released(
        &self,
        before: &SpinLockTable,
        index: usize,
        order: Ordering,
    ) -> bool {
        &&& self@.len() == before@.len()
        &&& index < self@.len()
        &&& forall|j: int| 0 <= j < self@.len() && j != index ==> self@[j] == before@[j]
        &&& !self.cell_at(index).is_locked()
        &&& self.cell_at(index).released_with() == Some(release_order(order))
        &&& self.cell_at(index).acquired_with() == before.cell_at(index).acquired_with()
    }

    /// Whether this is the table `before` after one operation on the location
    /// at `addr`: the lock for `addr` was taken for an operation of ordering
    /// `taken`, released after one of ordering `given`, and is free again; no
    /// other lock was touched.
    pub open spec fn served(
        &self,
        before: &SpinLockTable,
        addr: usize,
        taken: Ordering,
        given: Ordering,
    ) -> bool {
        &&& self@.len() == before@.len()
        &&& lock_index(addr) < self@.len()
        &&& forall|j: int|
            0 <= j < self@.len() && j != lock_index(addr) ==> self@[j] == before@[j]
        &&& !self.cell_for(addr).is_locked()
        &&& self.cell_for(addr).acquired_with() == Some(acquire_order(taken))
        &&& self.cell_for(addr).released_with() == Some(release_order(given))
    }

    /// Whether this is the table `before` after one operation on the location
    /// at `addr`: untouched where the location was served natively, and with
    /// the lock for `addr` taken and released where it was emulated.
    pub open spec fn used_by(
        &self,
        before: &SpinLockTable,
        native: bool,
        addr: usize,
        taken: Ordering,
        given: Ordering,
    ) -> bool {
        if native {
            self@ == before@
        } else {
            self.served(before, addr, taken, given)
        }
    }

    /// A table of free locks that were never taken.
    pub fn new() -> (r: SpinLockTable)
        ensures
            r@.len() == LOCKS,
            forall|j: int|
                0 <= j < LOCKS ==> !(#[trigger] r@[j]).is_locked() && r@[j].acquired_with() is None
                    && r@[j].released_with() is None,
    {
        let mut cells: Vec<SpinLock> = Vec::with_capacity(LOCKS);
        let mut i: usize = 0;
        while i < LOCKS
            invariant
                i <= LOCKS,
                cells@.len() == i,
                forall|j: int|
                    0 <= j < i ==> !(#[trigger] cells@[j]).is_locked()
                        && cells@[j].acquired_with() is None && cells@[j].released_with() is None,
            decreases LOCKS - i,
        {
            cells.push(SpinLock::new());
            i += 1;
        }
        SpinLockTable { cells }
    }

    /// The number of locks in the table.
    pub fn len(&self) -> (r: usize)
        ensures
            r == LOCKS,
            r == self@.len(),
    {
        proof {
            use_type_invariant(self);
        }
        self.cells.len()
    }

    /// The lock cell at `index`.
    pub fn cell(&self, index: usize) -> (r: &SpinLock)
        requires
            index < LOCKS,
        ensures
            index < self@.len(),
            *r == self.cell_at(index),
    {
        proof {
            use_type_invariant(self);
        }
        &self.cells[index]
    }
}

/// Takes the lock that guards the location at `addr` for an operation of
/// ordering `order`.
pub fn lock(locks: &mut SpinLockTable, addr: usize, order: Ordering) -> (guard: LockGuard)
    requires
        !old(locks).cell_for(addr).is_locked(),
    ensures
        guard.index() == lock_index(addr),
        guard.order() == order,
        final(locks).acquired(old(locks), lock_index(addr), order),
{
    proof {
        use_type_invariant(&*locks);
    }
    let index = lock_for_addr(addr);
    locks.cells[index].lock(order);
    LockGuard { index, order: MemoryOrder::of(order) }
}


/// The results of the arithmetic and bitwise operations have the width of
/// their operands.
pub proof fn lemma_width_kept(a: Seq<u8>, b: Seq<u8>)
    ensures
        wrapping_sum(a, b).len() == a.len(),
        wrapping_difference(a, b).len() == a.len(),
        bitwise_and(a, b).len() == a.len(),
        bitwise_or(a, b).len() == a.len(),
        bitwise_xor(a, b).len() == a.len(),
{
}

/// Reads the location while holding its lock.
pub fn atomic_load(locks: &mut SpinLockTable, dst: &Location, order: Ordering) -> (value: Vec<u8>)
    requires
        !old(locks).cell_for(dst.spec_addr()).is_locked(),
    ensures
        value@ == dst@,
        final(locks).served(old(locks), dst.spec_addr(), order, order),
{
    let guard = lock(locks, dst.addr(), order);
    let value = dst.read();
    guard.release(locks);
    value
}

/// Writes `val` to the location while holding its lock.
pub fn atomic_store(locks: &mut SpinLockTable, dst: &mut Location, val: &[u8], order: Ordering)
    requires
        !old(locks).cell_for(old(dst).spec_addr()).is_locked(),
        val@.len() == old(dst)@.len(),
    ensures
        final(dst)@ == val@,
        final(dst).same_place(old(dst)),
        final(locks).served(old(locks), old(dst).spec_addr(), order, order),
{
    let guard = lock(locks, dst.addr(), order);
    dst.write(val);
    guard.release(locks);
}

/// Writes `val` to the location while holding its lock, and returns what was
/// there before.
pub fn atomic_swap(
    locks: &mut SpinLockTable,
    dst: &mut Location,
    val: &[u8],
    order: Ordering,
) -> (prior: Vec<u8>)
    requires
        !old(locks).cell_for(old(dst).spec_addr()).is_locked(),
        val@.len() == old(dst)@.len(),
    ensures
        prior@ == old(dst)@,
        final(dst)@ == val@,
        final(dst).same_place(old(dst)),
        final(locks).served(old(locks), old(dst).spec_addr(), order, order),
{
    let guard = lock(locks, dst.addr(), order);
    let prior = dst.replace(val);
    guard.release(locks);
    prior
}

/// What a compare-exchange returns for a location that holds `prior`: the
/// pattern that it held, as a success where that pattern is `current` byte for
/// byte, and as a failure where it is not.
pub open spec fn exchange_result(prior: Seq<u8>, current: Seq<u8>, r: Result<Vec<u8>, Vec<u8>>) -> bool {
    if prior == current {
        r matches Ok(p) && p@ == prior
    } else {
        r matches Err(p) && p@ == prior
    }
}

/// What a compare-exchange leaves in a location that holds `prior`: `new`
/// where `prior` is `current` byte for byte, and `prior` where it is not.
pub open spec fn exchange_stored(prior: Seq<u8>, current: Seq<u8>, new: Seq<u8>) -> Seq<u8> {
    if prior == current {
        new
    } else {
        prior
    }
}

/// While holding the lock of the location: writes `new` to it if it holds
/// `current`, byte for byte, and leaves it as it is if not. Either way returns
/// what it held. The lock is taken for the ordering `success`; after a
/// failure it is released for the ordering `failure`.
pub fn atomic_compare_exchange(
    locks: &mut SpinLockTable,
    dst: &mut Location,
    current: &[u8],
    new: &[u8],
    success: Ordering,
    failure: Ordering,
) -> (r: Result<Vec<u8>, Vec<u8>>)
    requires
        !old(locks).cell_for(old(dst).spec_addr()).is_locked(),
        current@.len() == old(dst)@.len(),
        new@.len() == old(dst)@.len(),
    ensures
        exchange_result(old(dst)@, current@, r),
        final(dst)@ == exchange_stored(old(dst)@, current@, new@),
        final(dst).same_place(old(dst)),
        r is Ok ==> final(locks).served(old(locks), old(dst).spec_addr(), success, success),
        r is Err ==> final(locks).served(old(locks), old(dst).spec_addr(), success, failure),
{
    let mut guard = lock(locks, dst.addr(), success);
    let result = dst.read();
    if same_bytes(result.as_slice(), current) {
        dst.write(new);
        guard.release(locks);
        Ok(result)
    } else {
        guard.set_order(failure);
        guard.release(locks);
        Err(result)
    }
}

/// Adds `val` to the location while holding its lock, wrapping around at its
/// width, and returns what was there before.
pub fn atomic_add(
    locks: &mut SpinLockTable,
    dst: &mut Location,
    val: &[u8],
    order: Ordering,
) -> (prior: Vec<u8>)
    requires
        !old(locks).cell_for(old(dst).spec_addr()).is_locked(),
        val@.len() == old(dst)@.len(),
    ensures
        prior@ == old(dst)@,
        final(dst)@ == wrapping_sum(old(dst)@, val@),
        final(dst).same_place(old(dst)),
        final(locks).served(old(locks), old(dst).spec_addr(), order, order),
{
    let guard = lock(locks, dst.addr(), order);
    let result = dst.read();
    let next = sum_bytes(result.as_slice(), val);
    proof {
        lemma_width_kept(result@, val@);
    }
    dst.write(next.as_slice());
    guard.release(locks);
    result
}

/// Subtracts `val` from the location while holding its lock, wrapping around
/// at its width, and returns what was there before.
pub fn atomic_sub(
    locks: &mut SpinLockTable,
    dst: &mut Location,
    val: &[u8],
    order: Ordering,
) -> (prior: Vec<u8>)
    requires
        !old(locks).cell_for(old(dst).spec_addr()).is_locked(),
        val@.len() == old(dst)@.len(),
    ensures
        prior@ == old(dst)@,
        final(dst)@ == wrapping_difference(old(dst)@, val@),
        final(dst).same_place(old(dst)),
        final(locks).served(old(locks), old(dst).spec_addr(), order, order),
{
    let guard = lock(locks, dst.addr(), order);
    let result = dst.read();
    let next = difference_bytes(result.as_slice(), val);
    proof {
        lemma_width_kept(result@, val@);
    }
    dst.write(next.as_slice());
    guard.release(locks);
    result
}

/// Replaces the location by its bitwise conjunction with `val` while holding
/// its lock, and returns what was there before.
pub fn atomic_and(
    locks: &mut SpinLockTable,
    dst: &mut Location,
    val: &[u8],
    order: Ordering,
) -> (prior: Vec<u8>)
    requires
        !old(locks).cell_for(old(dst).spec_addr()).is_locked(),
        val@.len() == old(dst)@.len(),
    ensures
        prior@ == old(dst)@,
        final(dst)@ == bitwise_and(old(dst)@, val@),
        final(dst).same_place(old(dst)),
        final(locks).served(old(locks), old(dst).spec_addr(), order, order),
{
    let guard = lock(locks, dst.addr(), order);
    let result = dst.read();
    let next = and_bytes(result.as_slice(), val);
    proof {
        lemma_width_kept(result@, val@);
    }
    dst.write(next.as_slice());
    guard.release(locks);
    result
}

/// Replaces the location by its bitwise disjunction with `val` while holding
/// its lock, and returns what was there before.
pub fn atomic_or(
    locks: &mut SpinLockTable,
    dst: &mut Location,
    val: &[u8],
    order: Ordering,
) -> (prior: Vec<u8>)
    requires
        !old(locks).cell_for(old(dst).spec_addr()).is_locked(),
        val@.len() == old(dst)@.len(),
    ensures
        prior@ == old(dst)@,
        final(dst)@ == bitwise_or(old(dst)@, val@),
        final(dst).same_place(old(dst)),
        final(locks).served(old(locks), old(dst).spec_addr(), order, order),
{
    let guard = lock(locks, dst.addr(), order);
    let result = dst.read();
    let next = or_bytes(result.as_slice(), val);
    proof {
        lemma_width_kept(result@, val@);
    }
    dst.write(next.as_slice());
    guard.release(locks);
    result
}

/// Replaces the location by its bitwise exclusive disjunction with `val` while
/// holding its lock, and returns what was there before.
pub fn atomic_xor(
    locks: &mut SpinLockTable,
    dst: &mut Location,
    val: &[u8],
    order: Ordering,
) -> (prior: Vec<u8>)
    requires
        !old(locks).cell_for(old(dst).spec_addr()).is_locked(),
        val@.len() == old(dst)@.len(),
    ensures
        prior@ == old(dst)@,
        final(dst)@ == bitwise_xor(old(dst)@, val@),
        final(dst).same_place(old(dst)),
        final(locks).served(old(locks), old(dst).spec_addr(), order, order),
{
    let guard = lock(locks, dst.addr(), order);
    let result = dst.read();
    let next = xor_bytes(result.as_slice(), val);
    proof {
        lemma_width_kept(result@, val@);
    }
    dst.write(next.as_slice());
    guard.release(locks);
    result
}

/// Replaces the location by the smaller of itself and `val` while holding its
/// lock, and returns what was there before.
pub fn atomic_min(
    locks: &mut SpinLockTable,
    dst: &mut Location,
    val: &[u8],
    sign: Sign,
    order: Ordering,
) -> (prior: Vec<u8>)
    requires
        !old(locks).cell_for(old(dst).spec_addr()).is_locked(),
        val@.len() == old(dst)@.len(),
    ensures
        prior@ == old(dst)@,
        final(dst)@ == smaller(sign, old(dst)@, val@),
        final(dst).same_place(old(dst)),
        final(locks).served(old(locks), old(dst).spec_addr(), order, order),
{
    let guard = lock(locks, dst.addr(), order);
    let result = dst.read();
    let val_is_less = match sign {
        Sign::Signed => less_signed(val, result.as_slice()),
        Sign::Unsigned => less_unsigned(val, result.as_slice()),
    };
    if val_is_less {
        dst.write(val);
    } else {
        dst.write(result.as_slice());
    }
    guard.release(locks);
    result
}

/// Replaces the location by the larger of itself and `val` while holding its
/// lock, and returns what was there before.
pub fn atomic_max(
    locks: &mut SpinLockTable,
    dst: &mut Location,
    val: &[u8],
    sign: Sign,
    order: Ordering,
) -> (prior: Vec<u8>)
    requires
        !old(locks).cell_for(old(dst).spec_addr()).is_locked(),
        val@.len() == old(dst)@.len(),
    ensures
        prior@ == old(dst)@,
        final(dst)@ == larger(sign, old(dst)@, val@),
        final(dst).same_place(old(dst)),
        final(locks).served(old(locks), old(dst).spec_addr(), order, order),
{
    let guard = lock(locks, dst.addr(), order);
    let result = dst.read();
    let val_is_less = match sign {
        Sign::Signed => less_signed(val, result.as_slice()),
        Sign::Unsigned => less_unsigned(val, result.as_slice()),
    };
    if !val_is_less {
        dst.write(val);
    } else {
        dst.write(result.as_slice());
    }
    guard.release(locks);
    result
}

} // verus!
