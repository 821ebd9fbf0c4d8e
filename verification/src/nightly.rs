//! Atomic operations on a platform whose native primitives take their
//! ordering as part of the instruction.
//!
//! A location is served natively if there is a primitive of 1, 2, 4 or 8 bytes
//! of exactly its size and it is aligned to that size. The primitive is
//! reached through a function that takes the ordering and accepts only what
//! the instruction set has: a load that does not release, a store that does
//! not acquire, and a compare-exchange whose failure ordering is that of a
//! load and no stronger than its success ordering.

use vstd::prelude::*;
use vstd::layout::{align_of, size_of};
use core::sync::atomic::Ordering;
use crate::capability::Capabilities;
use crate::fallback;
use crate::fallback::{exchange_result, exchange_stored, SpinLockTable};
use crate::location::Location;
use crate::native;
use crate::native::{pattern_of, word_of};
use crate::ops::map_result;
use crate::order::{valid_for_exchange, valid_for_load, valid_for_store};
use crate::pattern::{
    bitwise_and,
    bitwise_or,
    bitwise_xor,
    le_pattern,
    le_value,
    lemma_le_value_injective,
    lemma_pattern_of_value,
    wrapping_difference,
    wrapping_sum,
};

verus! {

/// Whether values of type `T` are served natively on this platform.
pub fn atomic_is_lock_free<T>(caps: &Capabilities) -> (r: bool)
    ensures
        r == caps.lock_free_fixed(size_of::<T>(), align_of::<T>()),
{
    caps.is_lock_free_fixed(core::mem::size_of::<T>(), core::mem::align_of::<T>())
}

/// The pattern of as many bytes as the location has that stands for a word.
pub open spec fn pattern_in(val: u64, dst: &Location) -> Seq<u8> {
    le_pattern(val as nat, dst@.len())
}

/// The native load. There is one for each ordering that does not release.
fn atomic_load_raw(dst: &Location, order: Ordering) -> (word: u64)
    requires
        valid_for_load(order),
        dst@.len() <= native::MAX_WIDTH,
    ensures
        word == le_value(dst@),
{
    native::load(dst)
}

/// The native store. There is one for each ordering that does not acquire.
fn atomic_store_raw(dst: &mut Location, val: u64, order: Ordering)
    requires
        valid_for_store(order),
        old(dst)@.len() <= native::MAX_WIDTH,
    ensures
        final(dst)@ == pattern_in(val, old(dst)),
        final(dst).same_place(old(dst)),
{
    native::store(dst, val);
}

/// The native swap. There is one for each ordering.
fn atomic_swap_raw(dst: &mut Location, val: u64, order: Ordering) -> (prior: u64)
    requires
        old(dst)@.len() <= native::MAX_WIDTH,
    ensures
        prior == le_value(old(dst)@),
        final(dst)@ == pattern_in(val, old(dst)),
        final(dst).same_place(old(dst)),
{
    native::swap(dst, val)
}

/// The native compare-exchange. There is one for each pair of orderings of
/// which the second is that of a load and no stronger than the first.
fn atomic_compare_exchange_raw(
    dst: &mut Location,
    current: u64,
    new: u64,
    success: Ordering,
    failure: Ordering,
) -> (r: Result<u64, u64>)
    requires
        valid_for_exchange(success, failure),
        old(dst)@.len() <= native::MAX_WIDTH,
    ensures
        match r {
            Ok(prior) => prior == current && prior == le_value(old(dst)@) && final(dst)@
                == pattern_in(new, old(dst)),
            Err(prior) => prior != current && prior == le_value(old(dst)@) && final(dst)@ == old(
                dst,
            )@,
        },
        final(dst).same_place(old(dst)),
{
    native::compare_exchange(dst, current, new)
}

/// The native compare-exchange that is allowed to fail although the location
/// holds `current`. This one never does.
fn atomic_compare_exchange_weak_raw(
    dst: &mut Location,
    current: u64,
    new: u64,
    success: Ordering,
    failure: Ordering,
) -> (r: Result<u64, u64>)
    requires
        valid_for_exchange(success, failure),
        old(dst)@.len() <= native::MAX_WIDTH,
    ensures
        match r {
            Ok(prior) => prior == current && prior == le_value(old(dst)@) && final(dst)@
                == pattern_in(new, old(dst)),
            Err(prior) => prior != current && prior == le_value(old(dst)@) && final(dst)@ == old(
                dst,
            )@,
        },
        final(dst).same_place(old(dst)),
{
    native::compare_exchange(dst, current, new)
}

/// The native addition. There is one for each ordering.
fn atomic_add_raw(dst: &mut Location, val: u64, order: Ordering) -> (prior: u64)
    requires
        old(dst)@.len() <= native::MAX_WIDTH,
    ensures
        prior == le_value(old(dst)@),
        final(dst)@ == wrapping_sum(old(dst)@, pattern_in(val, old(dst))),
        final(dst).same_place(old(dst)),
{
    native::fetch_add(dst, val)
}

/// The native subtraction. There is one for each ordering.
fn atomic_sub_raw(dst: &mut Location, val: u64, order: Ordering) -> (prior: u64)
    requires
        old(dst)@.len() <= native::MAX_WIDTH,
    ensures
        prior == le_value(old(dst)@),
        final(dst)@ == wrapping_difference(old(dst)@, pattern_in(val, old(dst))),
        final(dst).same_place(old(dst)),
{
    native::fetch_sub(dst, val)
}

/// The native bitwise conjunction. There is one for each ordering.
fn atomic_and_raw(dst: &mut Location, val: u64, order: Ordering) -> (prior: u64)
    requires
        old(dst)@.len() <= native::MAX_WIDTH,
    ensures
        prior == le_value(old(dst)@),
        final(dst)@ == bitwise_and(old(dst)@, pattern_in(val, old(dst))),
        final(dst).same_place(old(dst)),
{
    native::fetch_and(dst, val)
}

/// The native bitwise disjunction. There is one for each ordering.
fn atomic_or_raw(dst: &mut Location, val: u64, order: Ordering) -> (prior: u64)
    requires
        old(dst)@.len() <= native::MAX_WIDTH,
    ensures
        prior == le_value(old(dst)@),
        final(dst)@ == bitwise_or(old(dst)@, pattern_in(val, old(dst))),
        final(dst).same_place(old(dst)),
{
    native::fetch_or(dst, val)
}

/// The native bitwise exclusive disjunction. There is one for each
/// ordering.
fn atomic_xor_raw(dst: &mut Location, val: u64, order: Ordering) -> (prior: u64)
    requires
        old(dst)@.len() <= native::MAX_WIDTH,
    ensures
        prior == le_value(old(dst)@),
        final(dst)@ == bitwise_xor(old(dst)@, pattern_in(val, old(dst))),
        final(dst).same_place(old(dst)),
{
    native::fetch_xor(dst, val)
}

/// Returns the pattern in the location.
pub fn atomic_load(
    caps: &Capabilities,
    locks: &mut SpinLockTable,
    dst: &Location,
    order: Ordering,
) -> (value: Vec<u8>)
    requires
        valid_for_load(order),
        !caps.fixed_native_for(dst) ==> !old(locks).cell_for(dst.spec_addr()).is_locked(),
    ensures
        value@ == dst@,
        final(locks).used_by(old(locks), caps.fixed_native_for(dst), dst.spec_addr(), order, order),
{
    if caps.is_fixed_native_for(dst) {
        proof {
            lemma_pattern_of_value(dst@);
        }
        pattern_of(atomic_load_raw(dst, order), dst.size())
    } else {
        fallback::atomic_load(locks, dst, order)
    }
}

/// Puts `val` into the location.
pub fn atomic_store(
    caps: &Capabilities,
    locks: &mut SpinLockTable,
    dst: &mut Location,
    val: &[u8],
    order: Ordering,
)
    requires
        valid_for_store(order),
        val@.len() == old(dst)@.len(),
        !caps.fixed_native_for(old(dst)) ==> !old(locks).cell_for(old(dst).spec_addr()).is_locked(),
    ensures
        final(dst)@ == val@,
        final(dst).same_place(old(dst)),
        final(locks).used_by(
            old(locks),
            caps.fixed_native_for(old(dst)),
            old(dst).spec_addr(),
            order,
            order,
        ),
{
    if caps.is_fixed_native_for(dst) {
        proof {
            lemma_pattern_of_value(val@);
        }
        atomic_store_raw(dst, word_of(val), order);
    } else {
        fallback::atomic_store(locks, dst, val, order);
    }
}

/// Puts `val` into the location and returns what was there before.
pub fn atomic_swap(
    caps: &Capabilities,
    locks: &mut SpinLockTable,
    dst: &mut Location,
    val: &[u8],
    order: Ordering,
) -> (prior: Vec<u8>)
    requires
        val@.len() == old(dst)@.len(),
        !caps.fixed_native_for(old(dst)) ==> !old(locks).cell_for(old(dst).spec_addr()).is_locked(),
    ensures
        prior@ == old(dst)@,
        final(dst)@ == val@,
        final(dst).same_place(old(dst)),
        final(locks).used_by(
            old(locks),
            caps.fixed_native_for(old(dst)),
            old(dst).spec_addr(),
            order,
            order,
        ),
{
    if caps.is_fixed_native_for(dst) {
        proof {
            lemma_pattern_of_value(dst@);
            lemma_pattern_of_value(val@);
        }
        let word = atomic_swap_raw(dst, word_of(val), order);
        pattern_of(word, dst.size())
    } else {
        fallback::atomic_swap(locks, dst, val, order)
    }
}

/// Puts `new` into the location if it holds `current`, byte for byte, and
/// leaves it as it is if not. Either way returns what it held: as a success
/// in the first case, as a failure in the second.
pub fn atomic_compare_exchange(
    caps: &Capabilities,
    locks: &mut SpinLockTable,
    dst: &mut Location,
    current: &[u8],
    new: &[u8],
    success: Ordering,
    failure: Ordering,
) -> (r: Result<Vec<u8>, Vec<u8>>)
    requires
        valid_for_exchange(success, failure),
        current@.len() == old(dst)@.len(),
        new@.len() == old(dst)@.len(),
        !caps.fixed_native_for(old(dst)) ==> !old(locks).cell_for(old(dst).spec_addr()).is_locked(),
    ensures
        exchange_result(old(dst)@, current@, r),
        final(dst)@ == exchange_stored(old(dst)@, current@, new@),
        final(dst).same_place(old(dst)),
        r is Ok ==> final(locks).used_by(
            old(locks),
            caps.fixed_native_for(old(dst)),
            old(dst).spec_addr(),
            success,
            success,
        ),
        r is Err ==> final(locks).used_by(
            old(locks),
            caps.fixed_native_for(old(dst)),
            old(dst).spec_addr(),
            success,
            failure,
        ),
{
    if caps.is_fixed_native_for(dst) {
        proof {
            lemma_pattern_of_value(dst@);
            lemma_pattern_of_value(current@);
            lemma_pattern_of_value(new@);
            if le_value(dst@) == le_value(current@) {
                lemma_le_value_injective(dst@, current@);
            }
        }
        let width = dst.size();
        map_result(atomic_compare_exchange_raw(dst, word_of(current), word_of(new), success, failure), width)
    } else {
        fallback::atomic_compare_exchange(locks, dst, current, new, success, failure)
    }
}

/// A compare-exchange that is allowed to fail although the location holds
/// `current`. This one never does: it succeeds exactly when the location
/// holds `current`, byte for byte.
pub fn atomic_compare_exchange_weak(
    caps: &Capabilities,
    locks: &mut SpinLockTable,
    dst: &mut Location,
    current: &[u8],
    new: &[u8],
    success: Ordering,
    failure: Ordering,
) -> (r: Result<Vec<u8>, Vec<u8>>)
    requires
        valid_for_exchange(success, failure),
        current@.len() == old(dst)@.len(),
        new@.len() == old(dst)@.len(),
        !caps.fixed_native_for(old(dst)) ==> !old(locks).cell_for(old(dst).spec_addr()).is_locked(),
    ensures
        exchange_result(old(dst)@, current@, r),
        final(dst)@ == exchange_stored(old(dst)@, current@, new@),
        final(dst).same_place(old(dst)),
        r is Ok ==> final(locks).used_by(
            old(locks),
            caps.fixed_native_for(old(dst)),
            old(dst).spec_addr(),
            success,
            success,
        ),
        r is Err ==> final(locks).used_by(
            old(locks),
            caps.fixed_native_for(old(dst)),
            old(dst).spec_addr(),
            success,
            failure,
        ),
{
    if caps.is_fixed_native_for(dst) {
        proof {
            lemma_pattern_of_value(dst@);
            lemma_pattern_of_value(current@);
            lemma_pattern_of_value(new@);
            if le_value(dst@) == le_value(current@) {
                lemma_le_value_injective(dst@, current@);
            }
        }
        let width = dst.size();
        map_result(atomic_compare_exchange_weak_raw(dst, word_of(current), word_of(new), success, failure), width)
    } else {
        fallback::atomic_compare_exchange(locks, dst, current, new, success, failure)
    }
}

/// Adds `val` to the location, wrapping around at its width, and returns what
/// was there before.
pub fn atomic_add(
    caps: &Capabilities,
    locks: &mut SpinLockTable,
    dst: &mut Location,
    val: &[u8],
    order: Ordering,
) -> (prior: Vec<u8>)
    requires
        val@.len() == old(dst)@.len(),
        !caps.fixed_native_for(old(dst)) ==> !old(locks).cell_for(old(dst).spec_addr()).is_locked(),
    ensures
        prior@ == old(dst)@,
        final(dst)@ == wrapping_sum(old(dst)@, val@),
        final(dst).same_place(old(dst)),
        final(locks).used_by(
            old(locks),
            caps.fixed_native_for(old(dst)),
            old(dst).spec_addr(),
            order,
            order,
        ),
{
    if caps.is_fixed_native_for(dst) {
        proof {
            lemma_pattern_of_value(dst@);
            lemma_pattern_of_value(val@);
        }
        let word = atomic_add_raw(dst, word_of(val), order);
        pattern_of(word, dst.size())
    } else {
        fallback::atomic_add(locks, dst, val, order)
    }
}

/// Subtracts `val` from the location, wrapping around at its width, and
/// returns what was there before.
pub fn atomic_sub(
    caps: &Capabilities,
    locks: &mut SpinLockTable,
    dst: &mut Location,
    val: &[u8],
    order: Ordering,
) -> (prior: Vec<u8>)
    requires
        val@.len() == old(dst)@.len(),
        !caps.fixed_native_for(old(dst)) ==> !old(locks).cell_for(old(dst).spec_addr()).is_locked(),
    ensures
        prior@ == old(dst)@,
        final(dst)@ == wrapping_difference(old(dst)@, val@),
        final(dst).same_place(old(dst)),
        final(locks).used_by(
            old(locks),
            caps.fixed_native_for(old(dst)),
            old(dst).spec_addr(),
            order,
            order,
        ),
{
    if caps.is_fixed_native_for(dst) {
        proof {
            lemma_pattern_of_value(dst@);
            lemma_pattern_of_value(val@);
        }
        let word = atomic_sub_raw(dst, word_of(val), order);
        pattern_of(word, dst.size())
    } else {
        fallback::atomic_sub(locks, dst, val, order)
    }
}

/// Replaces the location by its bitwise conjunction with `val` and returns
/// what was there before.
pub fn atomic_and(
    caps: &Capabilities,
    locks: &mut SpinLockTable,
    dst: &mut Location,
    val: &[u8],
    order: Ordering,
) -> (prior: Vec<u8>)
    requires
        val@.len() == old(dst)@.len(),
        !caps.fixed_native_for(old(dst)) ==> !old(locks).cell_for(old(dst).spec_addr()).is_locked(),
    ensures
        prior@ == old(dst)@,
        final(dst)@ == bitwise_and(old(dst)@, val@),
        final(dst).same_place(old(dst)),
        final(locks).used_by(
            old(locks),
            caps.fixed_native_for(old(dst)),
            old(dst).spec_addr(),
            order,
            order,
        ),
{
    if caps.is_fixed_native_for(dst) {
        proof {
            lemma_pattern_of_value(dst@);
            lemma_pattern_of_value(val@);
        }
        let word = atomic_and_raw(dst, word_of(val), order);
        pattern_of(word, dst.size())
    } else {
        fallback::atomic_and(locks, dst, val, order)
    }
}

/// Replaces the location by its bitwise disjunction with `val` and returns
/// what was there before.
pub fn atomic_or(
    caps: &Capabilities,
    locks: &mut SpinLockTable,
    dst: &mut Location,
    val: &[u8],
    order: Ordering,
) -> (prior: Vec<u8>)
    requires
        val@.len() == old(dst)@.len(),
        !caps.fixed_native_for(old(dst)) ==> !old(locks).cell_for(old(dst).spec_addr()).is_locked(),
    ensures
        prior@ == old(dst)@,
        final(dst)@ == bitwise_or(old(dst)@, val@),
        final(dst).same_place(old(dst)),
        final(locks).used_by(
            old(locks),
            caps.fixed_native_for(old(dst)),
            old(dst).spec_addr(),
            order,
            order,
        ),
{
    if caps.is_fixed_native_for(dst) {
        proof {
            lemma_pattern_of_value(dst@);
            lemma_pattern_of_value(val@);
        }
        let word = atomic_or_raw(dst, word_of(val), order);
        pattern_of(word, dst.size())
    } else {
        fallback::atomic_or(locks, dst, val, order)
    }
}

/// Replaces the location by its bitwise exclusive disjunction with `val` and
/// returns what was there before.
pub fn atomic_xor(
    caps: &Capabilities,
    locks: &mut SpinLockTable,
    dst: &mut Location,
    val: &[u8],
    order: Ordering,
) -> (prior: Vec<u8>)
    requires
        val@.len() == old(dst)@.len(),
        !caps.fixed_native_for(old(dst)) ==> !old(locks).cell_for(old(dst).spec_addr()).is_locked(),
    ensures
        prior@ == old(dst)@,
        final(dst)@ == bitwise_xor(old(dst)@, val@),
        final(dst).same_place(old(dst)),
        final(locks).used_by(
            old(locks),
            caps.fixed_native_for(old(dst)),
            old(dst).spec_addr(),
            order,
            order,
        ),
{
    if caps.is_fixed_native_for(dst) {
        proof {
            lemma_pattern_of_value(dst@);
            lemma_pattern_of_value(val@);
        }
        let word = atomic_xor_raw(dst, word_of(val), order);
        pattern_of(word, dst.size())
    } else {
        fallback::atomic_xor(locks, dst, val, order)
    }
}

} // verus!
