//! Memory orderings and the rules on their use.
//!
//! A load may not release and a store may not acquire. A compare-exchange
//! takes two orderings, one for success and one for failure: the failure
//! ordering is that of a load and is not stronger than the success ordering.
//! The lock that guards an emulated operation is taken and released
//! sequentially consistent where the operation is, and with acquire and
//! release otherwise.

use vstd::prelude::*;
use core::sync::atomic::Ordering;

verus! {

/// Whether an operation with this ordering sees what was released before it.
pub open spec fn acquires(order: Ordering) -> bool {
    match order {
        Ordering::Acquire | Ordering::AcqRel | Ordering::SeqCst => true,
        _ => false,
    }
}

/// Whether an operation with this ordering publishes what went before it.
pub open spec fn releases(order: Ordering) -> bool {
    match order {
        Ordering::Release | Ordering::AcqRel | Ordering::SeqCst => true,
        _ => false,
    }
}

/// Whether an operation with this ordering is sequentially consistent.
pub open spec fn sequential(order: Ordering) -> bool {
    match order {
        Ordering::SeqCst => true,
        _ => false,
    }
}

/// Whether `weaker` promises nothing that `stronger` does not.
pub open spec fn not_stronger(weaker: Ordering, stronger: Ordering) -> bool {
    &&& acquires(weaker) ==> acquires(stronger)
    &&& releases(weaker) ==> releases(stronger)
    &&& sequential(weaker) ==> sequential(stronger)
}

/// Whether a load may be made with this ordering.
pub open spec fn valid_for_load(order: Ordering) -> bool {
    match order {
        Ordering::Release | Ordering::AcqRel => false,
        _ => true,
    }
}

/// Whether a store may be made with this ordering.
pub open spec fn valid_for_store(order: Ordering) -> bool {
    match order {
        Ordering::Acquire | Ordering::AcqRel => false,
        _ => true,
    }
}

/// Whether a compare-exchange may be made with these two orderings.
pub open spec fn valid_for_exchange(success: Ordering, failure: Ordering) -> bool {
    valid_for_load(failure) && not_stronger(failure, success)
}

/// The ordering with which a lock is taken for an operation of this ordering.
pub open spec fn acquire_order(order: Ordering) -> Ordering {
    match order {
        Ordering::SeqCst => Ordering::SeqCst,
        _ => Ordering::Acquire,
    }
}

/// The ordering with which a lock is released after an operation of this
/// ordering.
pub open spec fn release_order(order: Ordering) -> Ordering {
    match order {
        Ordering::SeqCst => Ordering::SeqCst,
        _ => Ordering::Release,
    }
}

/// Why an ordering is refused.
#[derive(Clone, Copy, Debug, PartialEq, Eq, Structural)]
pub enum OrderError {
    /// A load was asked to release.
    LoadReleases,
    /// A store was asked to acquire.
    StoreAcquires,
    /// The failure ordering of a compare-exchange releases.
    FailureReleases,
    /// The failure ordering of a compare-exchange is stronger than its
    /// success ordering.
    FailureStronger,
}

/// Accepts the orderings with which a load may be made.
pub fn check_load(order: Ordering) -> (r: Result<(), OrderError>)
    ensures
        r is Ok <==> valid_for_load(order),
        r is Err ==> r == Err::<(), OrderError>(OrderError::LoadReleases),
{
    match order {
        Ordering::Release | Ordering::AcqRel => Err(OrderError::LoadReleases),
        _ => Ok(()),
    }
}

/// Accepts the orderings with which a store may be made.
pub fn check_store(order: Ordering) -> (r: Result<(), OrderError>)
    ensures
        r is Ok <==> valid_for_store(order),
        r is Err ==> r == Err::<(), OrderError>(OrderError::StoreAcquires),
{
    match order {
        Ordering::Acquire | Ordering::AcqRel => Err(OrderError::StoreAcquires),
        _ => Ok(()),
    }
}

/// Accepts the pairs of orderings with which a compare-exchange may be made.
/// A failure ordering that releases is refused as such, whatever the success
/// ordering is.
pub fn check_exchange(success: Ordering, failure: Ordering) -> (r: Result<(), OrderError>)
    ensures
        r is Ok <==> valid_for_exchange(success, failure),
        !valid_for_load(failure) ==> r == Err::<(), OrderError>(OrderError::FailureReleases),
        valid_for_load(failure) && !not_stronger(failure, success) ==> r == Err::<(), OrderError>(
            OrderError::FailureStronger,
        ),
{
    match failure {
        Ordering::Release | Ordering::AcqRel => Err(OrderError::FailureReleases),
        Ordering::Relaxed => Ok(()),
        Ordering::Acquire => match success {
            Ordering::Acquire | Ordering::AcqRel | Ordering::SeqCst => Ok(()),
            _ => Err(OrderError::FailureStronger),
        },
        _ => match success {
            Ordering::SeqCst => Ok(()),
            _ => Err(OrderError::FailureStronger),
        },
    }
}

/// There are nine pairs of orderings with which a compare-exchange may be
/// made.
pub proof fn law_nine_exchange_pairs(success: Ordering, failure: Ordering)
    ensures
        valid_for_exchange(success, failure) <==> {
            ||| (success is Relaxed && failure is Relaxed)
            ||| (success is Acquire && failure is Relaxed)
            ||| (success is Release && failure is Relaxed)
            ||| (success is AcqRel && failure is Relaxed)
            ||| (success is SeqCst && failure is Relaxed)
            ||| (success is Acquire && failure is Acquire)
            ||| (success is AcqRel && failure is Acquire)
            ||| (success is SeqCst && failure is Acquire)
            ||| (success is SeqCst && failure is SeqCst)
        },
{
}

/// The ordering with which a lock is taken for an operation of this ordering.
pub fn lock_acquire_order(order: Ordering) -> (r: Ordering)
    ensures
        r == acquire_order(order),
{
    match order {
        Ordering::SeqCst => Ordering::SeqCst,
        _ => Ordering::Acquire,
    }
}

/// The ordering with which a lock is released after an operation of this
/// ordering.
pub fn lock_release_order(order: Ordering) -> (r: Ordering)
    ensures
        r == release_order(order),
{
    match order {
        Ordering::SeqCst => Ordering::SeqCst,
        _ => Ordering::Release,
    }
}

/// A lock is taken and released at least as strongly as the operation that it
/// guards asks to acquire and to release.
pub proof fn law_lock_orders_suffice(order: Ordering)
    ensures
        acquires(acquire_order(order)),
        releases(release_order(order)),
        sequential(order) ==> sequential(acquire_order(order)) && sequential(
            release_order(order),
        ),
{
}


/// A memory ordering as a value that can be kept in a field.
#[derive(Clone, Copy, Debug)]
pub enum MemoryOrder {
    Relaxed,
    Acquire,
    Release,
    AcqRel,
    SeqCst,
}

impl MemoryOrder {
    /// The ordering that this value stands for.
    pub open spec fn ordering(self) -> Ordering {
        match self {
            MemoryOrder::Relaxed => Ordering::Relaxed,
            MemoryOrder::Acquire => Ordering::Acquire,
            MemoryOrder::Release => Ordering::Release,
            MemoryOrder::AcqRel => Ordering::AcqRel,
            MemoryOrder::SeqCst => Ordering::SeqCst,
        }
    }

    /// The value that stands for `order`.
    pub fn of(order: Ordering) -> (r: MemoryOrder)
        ensures
            r.ordering() == order,
    {
        match order {
            Ordering::Relaxed => MemoryOrder::Relaxed,
            Ordering::Acquire => MemoryOrder::Acquire,
            Ordering::Release => MemoryOrder::Release,
            Ordering::AcqRel => MemoryOrder::AcqRel,
            _ => MemoryOrder::SeqCst,
        }
    }

    /// The ordering that this value stands for.
    pub fn to_ordering(self) -> (r: Ordering)
        ensures
            r == self.ordering(),
    {
        match self {
            MemoryOrder::Relaxed => Ordering::Relaxed,
            MemoryOrder::Acquire => Ordering::Acquire,
            MemoryOrder::Release => Ordering::Release,
            MemoryOrder::AcqRel => Ordering::AcqRel,
            MemoryOrder::SeqCst => Ordering::SeqCst,
        }
    }
}

} // verus!
