//! Atomic operations on a platform whose only native primitive is as wide as
//! a pointer.
//!
//! A location is served natively if it has the size of a pointer and is
//! aligned to that size. Every other location is emulated.

use vstd::prelude::*;
use vstd::layout::{align_of, size_of};
use core::sync::atomic::Ordering;
use crate::capability::{is_pointer_native_for, is_pointer_sized, pointer_native_for, pointer_sized};
use crate::fallback;
use crate::fallback::{exchange_result, exchange_stored, SpinLockTable};
use crate::location::Location;
use crate::native;
use crate::native::{pattern_of, word_of};
use crate::ops::map_result;
use crate::order::{valid_for_exchange, valid_for_load, valid_for_store};
use crate::pattern::{
    bitwise_and,
    bitwise_or,
    bitwise_xor,
    le_value,
    lemma_le_value_injective,
    lemma_pattern_of_value,
    wrapping_difference,
    wrapping_sum,
};

verus! {

/// Whether values of type `T` are served natively.
pub fn atomic_is_lock_free<T>() -> (r: bool)
    ensures
        r == pointer_sized(size_of::<T>(), align_of::<T>()),
{
    is_pointer_sized(core::mem::size_of::<T>(), core::mem::align_of::<T>())
}

/// Returns the pattern in the location.
pub fn atomic_load(
    locks: &mut SpinLockTable,
    dst: &Location,
    order: Ordering,
) -> (value: Vec<u8>)
    requires
        valid_for_load(order),
        !pointer_native_for(dst) ==> !old(locks).cell_for(dst.spec_addr()).is_locked(),
    ensures
        value@ == dst@,
        final(locks).used_by(old(locks), pointer_native_for(dst), dst.spec_addr(), order, order),
{
    if is_pointer_native_for(dst) {
        proof {
            lemma_pattern_of_value(dst@);
        }
        pattern_of(native::load(dst), dst.size())
    } else {
        fallback::atomic_load(locks, dst, order)
    }
}

/// Puts `val` into the location.
pub fn atomic_store(
    locks: &mut SpinLockTable,
    dst: &mut Location,
    val: &[u8],
    order: Ordering,
)
    requires
        valid_for_store(order),
        val@.len() == old(dst)@.len(),
        !pointer_native_for(old(dst)) ==> !old(locks).cell_for(old(dst).spec_addr()).is_locked(),
    ensures
        final(dst)@ == val@,
        final(dst).same_place(old(dst)),
        final(locks).used_by(
            old(locks),
            pointer_native_for(old(dst)),
            old(dst).spec_addr(),
            order,
            order,
        ),
{
    if is_pointer_native_for(dst) {
        proof {
            lemma_pattern_of_value(val@);
        }
        native::store(dst, word_of(val));
    } else {
        fallback::atomic_store(locks, dst, val, order);
    }
}

/// Puts `val` into the location and returns what was there before.
pub fn atomic_swap(
    locks: &mut SpinLockTable,
    dst: &mut Location,
    val: &[u8],
    order: Ordering,
) -> (prior: Vec<u8>)
    requires
        val@.len() == old(dst)@.len(),
        !pointer_native_for(old(dst)) ==> !old(locks).cell_for(old(dst).spec_addr()).is_locked(),
    ensures
        prior@ == old(dst)@,
        final(dst)@ == val@,
        final(dst).same_place(old(dst)),
        final(locks).used_by(
            old(locks),
            pointer_native_for(old(dst)),
            old(dst).spec_addr(),
            order,
            order,
        ),
{
    if is_pointer_native_for(dst) {
        proof {
            lemma_pattern_of_value(dst@);
            lemma_pattern_of_value(val@);
        }
        let word = native::swap(dst, word_of(val));
        pattern_of(word, dst.size())
    } else {
        fallback::atomic_swap(locks, dst, val, order)
    }
}

/// Puts `new` into the location if it holds `current`, byte for byte, and
/// leaves it as it is if not. Either way returns what it held: as a success
/// in the first case, as a failure in the second.
pub fn atomic_compare_exchange(
    locks: &mut SpinLockTable,
    dst: &mut Location,
    current: &[u8],
    new: &[u8],
    success: Ordering,
    failure: Ordering,
) -> (r: Result<Vec<u8>, Vec<u8>>)
    requires
        valid_for_exchange(success, failure),
        current@.len() == old(dst)@.len(),
        new@.len() == old(dst)@.len(),
        !pointer_native_for(old(dst)) ==> !old(locks).cell_for(old(dst).spec_addr()).is_locked(),
    ensures
        exchange_result(old(dst)@, current@, r),
        final(dst)@ == exchange_stored(old(dst)@, current@, new@),
        final(dst).same_place(old(dst)),
        r is Ok ==> final(locks).used_by(
            old(locks),
            pointer_native_for(old(dst)),
            old(dst).spec_addr(),
            success,
            success,
        ),
        r is Err ==> final(locks).used_by(
            old(locks),
            pointer_native_for(old(dst)),
            old(dst).spec_addr(),
            success,
            failure,
        ),
{
    if is_pointer_native_for(dst) {
        proof {
            lemma_pattern_of_value(dst@);
            lemma_pattern_of_value(current@);
            lemma_pattern_of_value(new@);
            if le_value(dst@) == le_value(current@) {
                lemma_le_value_injective(dst@, current@);
            }
        }
        let width = dst.size();
        map_result(native::compare_exchange(dst, word_of(current), word_of(new)), width)
    } else {
        fallback::atomic_compare_exchange(locks, dst, current, new, success, failure)
    }
}

/// A compare-exchange that is allowed to fail although the location holds
/// `current`. This one never does: it succeeds exactly when the location
/// holds `current`, byte for byte.
pub fn atomic_compare_exchange_weak(
    locks: &mut SpinLockTable,
    dst: &mut Location,
    current: &[u8],
    new: &[u8],
    success: Ordering,
    failure: Ordering,
) -> (r: Result<Vec<u8>, Vec<u8>>)
    requires
        valid_for_exchange(success, failure),
        current@.len() == old(dst)@.len(),
        new@.len() == old(dst)@.len(),
        !pointer_native_for(old(dst)) ==> !old(locks).cell_for(old(dst).spec_addr()).is_locked(),
    ensures
        exchange_result(old(dst)@, current@, r),
        final(dst)@ == exchange_stored(old(dst)@, current@, new@),
        final(dst).same_place(old(dst)),
        r is Ok ==> final(locks).used_by(
            old(locks),
            pointer_native_for(old(dst)),
            old(dst).spec_addr(),
            success,
            success,
        ),
        r is Err ==> final(locks).used_by(
            old(locks),
            pointer_native_for(old(dst)),
            old(dst).spec_addr(),
            success,
            failure,
        ),
{
    atomic_compare_exchange(locks, dst, current, new, success, failure)
}

/// Adds `val` to the location, wrapping around at its width, and returns what
/// was there before.
pub fn atomic_add(
    locks: &mut SpinLockTable,
    dst: &mut Location,
    val: &[u8],
    order: Ordering,
) -> (prior: Vec<u8>)
    requires
        val@.len() == old(dst)@.len(),
        !pointer_native_for(old(dst)) ==> !old(locks).cell_for(old(dst).spec_addr()).is_locked(),
    ensures
        prior@ == old(dst)@,
        final(dst)@ == wrapping_sum(old(dst)@, val@),
        final(dst).same_place(old(dst)),
        final(locks).used_by(
            old(locks),
            pointer_native_for(old(dst)),
            old(dst).spec_addr(),
            order,
            order,
        ),
{
    if is_pointer_native_for(dst) {
        proof {
            lemma_pattern_of_value(dst@);
            lemma_pattern_of_value(val@);
        }
        let word = native::fetch_add(dst, word_of(val));
        pattern_of(word, dst.size())
    } else {
        fallback::atomic_add(locks, dst, val, order)
    }
}

/// Subtracts `val` from the location, wrapping around at its width, and
/// returns what was there before.
pub fn atomic_sub(
    locks: &mut SpinLockTable,
    dst: &mut Location,
    val: &[u8],
    order: Ordering,
) -> (prior: Vec<u8>)
    requires
        val@.len() == old(dst)@.len(),
        !pointer_native_for(old(dst)) ==> !old(locks).cell_for(old(dst).spec_addr()).is_locked(),
    ensures
        prior@ == old(dst)@,
        final(dst)@ == wrapping_difference(old(dst)@, val@),
        final(dst).same_place(old(dst)),
        final(locks).used_by(
            old(locks),
            pointer_native_for(old(dst)),
            old(dst).spec_addr(),
            order,
            order,
        ),
{
    if is_pointer_native_for(dst) {
        proof {
            lemma_pattern_of_value(dst@);
            lemma_pattern_of_value(val@);
        }
        let word = native::fetch_sub(dst, word_of(val));
        pattern_of(word, dst.size())
    } else {
        fallback::atomic_sub(locks, dst, val, order)
    }
}

/// Replaces the location by its bitwise conjunction with `val` and returns
/// what was there before.
pub fn atomic_and(
    locks: &mut SpinLockTable,
    dst: &mut Location,
    val: &[u8],
    order: Ordering,
) -> (prior: Vec<u8>)
    requires
        val@.len() == old(dst)@.len(),
        !pointer_native_for(old(dst)) ==> !old(locks).cell_for(old(dst).spec_addr()).is_locked(),
    ensures
        prior@ == old(dst)@,
        final(dst)@ == bitwise_and(old(dst)@, val@),
        final(dst).same_place(old(dst)),
        final(locks).used_by(
            old(locks),
            pointer_native_for(old(dst)),
            old(dst).spec_addr(),
            order,
            order,
        ),
{
    if is_pointer_native_for(dst) {
        proof {
            lemma_pattern_of_value(dst@);
            lemma_pattern_of_value(val@);
        }
        let word = native::fetch_and(dst, word_of(val));
        pattern_of(word, dst.size())
    } else {
        fallback::atomic_and(locks, dst, val, order)
    }
}

/// Replaces the location by its bitwise disjunction with `val` and returns
/// what was there before.
pub fn atomic_or(
    locks: &mut SpinLockTable,
    dst: &mut Location,
    val: &[u8],
    order: Ordering,
) -> (prior: Vec<u8>)
    requires
        val@.len() == old(dst)@.len(),
        !pointer_native_for(old(dst)) ==> !old(locks).cell_for(old(dst).spec_addr()).is_locked(),
    ensures
        prior@ == old(dst)@,
        final(dst)@ == bitwise_or(old(dst)@, val@),
        final(dst).same_place(old(dst)),
        final(locks).used_by(
            old(locks),
            pointer_native_for(old(dst)),
            old(dst).spec_addr(),
            order,
            order,
        ),
{
    if is_pointer_native_for(dst) {
        proof {
            lemma_pattern_of_value(dst@);
            lemma_pattern_of_value(val@);
        }
        let word = native::fetch_or(dst, word_of(val));
        pattern_of(word, dst.size())
    } else {
        fallback::atomic_or(locks, dst, val, order)
    }
}

/// Replaces the location by its bitwise exclusive disjunction with `val` and
/// returns what was there before.
pub fn atomic_xor(
    locks: &mut SpinLockTable,
    dst: &mut Location,
    val: &[u8],
    order: Ordering,
) -> (prior: Vec<u8>)
    requires
        val@.len() == old(dst)@.len(),
        !pointer_native_for(old(dst)) ==> !old(locks).cell_for(old(dst).spec_addr()).is_locked(),
    ensures
        prior@ == old(dst)@,
        final(dst)@ == bitwise_xor(old(dst)@, val@),
        final(dst).same_place(old(dst)),
        final(locks).used_by(
            old(locks),
            pointer_native_for(old(dst)),
            old(dst).spec_addr(),
            order,
            order,
        ),
{
    if is_pointer_native_for(dst) {
        proof {
            lemma_pattern_of_value(dst@);
            lemma_pattern_of_value(val@);
        }
        let word = native::fetch_xor(dst, word_of(val));
        pattern_of(word, dst.size())
    } else {
        fallback::atomic_xor(locks, dst, val, order)
    }
}

} // verus!
