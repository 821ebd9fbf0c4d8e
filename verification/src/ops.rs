//! Atomic operations on locations.
//!
//! Each operation asks whether the platform serves the location natively. If
//! it does, the pattern in the location is taken as a word, the native
//! primitive is applied to it, and the resulting word is turned back into a
//! pattern. If it does not, the operation is handed to the emulation, which
//! guards it by the lock that belongs to the address of the location.
//!
//! Either way an operation returns the same pattern and leaves the same
//! pattern behind: the contracts below do not depend on the platform but in
//! what they say of the lock table.

use vstd::prelude::*;
use vstd::layout::{align_of, size_of};
use core::sync::atomic::Ordering;
use crate::capability::Capabilities;
use crate::fallback;
use crate::fallback::{exchange_result, exchange_stored, SpinLockTable};
use crate::location::Location;
use crate::native;
use crate::native::{pattern_of, word_of};
use crate::order::{valid_for_exchange, valid_for_load, valid_for_store};
use crate::pattern::{
    bitwise_and,
    bitwise_or,
    bitwise_xor,
    larger_signed,
    larger_unsigned,
    le_pattern,
    le_value,
    lemma_le_value_injective,
    lemma_pattern_of_value,
    smaller_signed,
    smaller_unsigned,
    wrapping_difference,
    wrapping_sum,
    Sign,
};

verus! {

/// Whether values of type `T` are served natively on this platform.
pub fn atomic_is_lock_free<T>(caps: &Capabilities) -> (r: bool)
    ensures
        r == caps.lock_free(size_of::<T>(), align_of::<T>()),
{
    caps.is_lock_free(core::mem::size_of::<T>(), core::mem::align_of::<T>())
}

/// The answer for a type tells which way the operations on a location go that
/// has the size and the alignment of that type.
pub proof fn law_location_served_as_its_type<T>(caps: &Capabilities, dst: &Location)
    requires
        dst@.len() == size_of::<T>(),
        dst.spec_align() == align_of::<T>(),
    ensures
        caps.native_for(dst) == caps.lock_free(size_of::<T>(), align_of::<T>()),
{
}

/// The result of a native compare-exchange as patterns of `width` bytes.
pub fn map_result(r: Result<u64, u64>, width: usize) -> (out: Result<Vec<u8>, Vec<u8>>)
    ensures
        match r {
            Ok(word) => out matches Ok(p) && p@ == le_pattern(word as nat, width as nat),
            Err(word) => out matches Err(p) && p@ == le_pattern(word as nat, width as nat),
        },
{
    match r {
        Ok(x) => Ok(pattern_of(x, width)),
        Err(x) => Err(pattern_of(x, width)),
    }
}

/// Returns the pattern in the location.
pub fn atomic_load(
    caps: &Capabilities,
    locks: &mut SpinLockTable,
    dst: &Location,
    order: Ordering,
) -> (value: Vec<u8>)
    requires
        valid_for_load(order),
        !caps.native_for(dst) ==> !old(locks).cell_for(dst.spec_addr()).is_locked(),
    ensures
        value@ == dst@,
        final(locks).used_by(old(locks), caps.native_for(dst), dst.spec_addr(), order, order),
{
    if caps.is_native_for(dst) {
        proof {
            lemma_pattern_of_value(dst@);
        }
        pattern_of(native::load(dst), dst.size())
    } else {
        fallback::atomic_load(locks, dst, order)
    }
}

/// Puts `val` into the location.
pub fn atomic_store(
    caps: &Capabilities,
    locks: &mut SpinLockTable,
    dst: &mut Location,
    val: &[u8],
    order: Ordering,
)
    requires
        valid_for_store(order),
        val@.len() == old(dst)@.len(),
        !caps.native_for(old(dst)) ==> !old(locks).cell_for(old(dst).spec_addr()).is_locked(),
    ensures
        final(dst)@ == val@,
        final(dst).same_place(old(dst)),
        final(locks).used_by(
            old(locks),
            caps.native_for(old(dst)),
            old(dst).spec_addr(),
            order,
            order,
        ),
{
    if caps.is_native_for(dst) {
        proof {
            lemma_pattern_of_value(val@);
        }
        native::store(dst, word_of(val));
    } else {
        fallback::atomic_store(locks, dst, val, order);
    }
}

/// Puts `val` into the location and returns what was there before.
pub fn atomic_swap(
    caps: &Capabilities,
    locks: &mut SpinLockTable,
    dst: &mut Location,
    val: &[u8],
    order: Ordering,
) -> (prior: Vec<u8>)
    requires
        val@.len() == old(dst)@.len(),
        !caps.native_for(old(dst)) ==> !old(locks).cell_for(old(dst).spec_addr()).is_locked(),
    ensures
        prior@ == old(dst)@,
        final(dst)@ == val@,
        final(dst).same_place(old(dst)),
        final(locks).used_by(
            old(locks),
            caps.native_for(old(dst)),
            old(dst).spec_addr(),
            order,
            order,
        ),
{
    if caps.is_native_for(dst) {
        proof {
            lemma_pattern_of_value(dst@);
            lemma_pattern_of_value(val@);
        }
        let word = native::swap(dst, word_of(val));
        pattern_of(word, dst.size())
    } else {
        fallback::atomic_swap(locks, dst, val, order)
    }
}

/// Puts `new` into the location if it holds `current`, byte for byte, and
/// leaves it as it is if not. Either way returns what it held: as a success
/// in the first case, as a failure in the second.
pub fn atomic_compare_exchange(
    caps: &Capabilities,
    locks: &mut SpinLockTable,
    dst: &mut Location,
    current: &[u8],
    new: &[u8],
    success: Ordering,
    failure: Ordering,
) -> (r: Result<Vec<u8>, Vec<u8>>)
    requires
        valid_for_exchange(success, failure),
        current@.len() == old(dst)@.len(),
        new@.len() == old(dst)@.len(),
        !caps.native_for(old(dst)) ==> !old(locks).cell_for(old(dst).spec_addr()).is_locked(),
    ensures
        exchange_result(old(dst)@, current@, r),
        final(dst)@ == exchange_stored(old(dst)@, current@, new@),
        final(dst).same_place(old(dst)),
        r is Ok ==> final(locks).used_by(
            old(locks),
            caps.native_for(old(dst)),
            old(dst).spec_addr(),
            success,
            success,
        ),
        r is Err ==> final(locks).used_by(
            old(locks),
            caps.native_for(old(dst)),
            old(dst).spec_addr(),
            success,
            failure,
        ),
{
    if caps.is_native_for(dst) {
        proof {
            lemma_pattern_of_value(dst@);
            lemma_pattern_of_value(current@);
            lemma_pattern_of_value(new@);
            if le_value(dst@) == le_value(current@) {
                lemma_le_value_injective(dst@, current@);
            }
        }
        let width = dst.size();
        map_result(native::compare_exchange(dst, word_of(current), word_of(new)), width)
    } else {
        fallback::atomic_compare_exchange(locks, dst, current, new, success, failure)
    }
}

/// A compare-exchange that is allowed to fail although the location holds
/// `current`. This one never does: it succeeds exactly when the location
/// holds `current`, byte for byte.
pub fn atomic_compare_exchange_weak(
    caps: &Capabilities,
    locks: &mut SpinLockTable,
    dst: &mut Location,
    current: &[u8],
    new: &[u8],
    success: Ordering,
    failure: Ordering,
) -> (r: Result<Vec<u8>, Vec<u8>>)
    requires
        valid_for_exchange(success, failure),
        current@.len() == old(dst)@.len(),
        new@.len() == old(dst)@.len(),
        !caps.native_for(old(dst)) ==> !old(locks).cell_for(old(dst).spec_addr()).is_locked(),
    ensures
        exchange_result(old(dst)@, current@, r),
        final(dst)@ == exchange_stored(old(dst)@, current@, new@),
        final(dst).same_place(old(dst)),
        r is Ok ==> final(locks).used_by(
            old(locks),
            caps.native_for(old(dst)),
            old(dst).spec_addr(),
            success,
            success,
        ),
        r is Err ==> final(locks).used_by(
            old(locks),
            caps.native_for(old(dst)),
            old(dst).spec_addr(),
            success,
            failure,
        ),
{
    if caps.is_native_for(dst) {
        proof {
            lemma_pattern_of_value(dst@);
            lemma_pattern_of_value(current@);
            lemma_pattern_of_value(new@);
            if le_value(dst@) == le_value(current@) {
                lemma_le_value_injective(dst@, current@);
            }
        }
        let width = dst.size();
        map_result(native::compare_exchange(dst, word_of(current), word_of(new)), width)
    } else {
        fallback::atomic_compare_exchange(locks, dst, current, new, success, failure)
    }
}

/// Adds `val` to the location, wrapping around at its width, and returns what
/// was there before.
pub fn atomic_add(
    caps: &Capabilities,
    locks: &mut SpinLockTable,
    dst: &mut Location,
    val: &[u8],
    order: Ordering,
) -> (prior: Vec<u8>)
    requires
        val@.len() == old(dst)@.len(),
        !caps.native_for(old(dst)) ==> !old(locks).cell_for(old(dst).spec_addr()).is_locked(),
    ensures
        prior@ == old(dst)@,
        final(dst)@ == wrapping_sum(old(dst)@, val@),
        final(dst).same_place(old(dst)),
        final(locks).used_by(
            old(locks),
            caps.native_for(old(dst)),
            old(dst).spec_addr(),
            order,
            order,
        ),
{
    if caps.is_native_for(dst) {
        proof {
            lemma_pattern_of_value(dst@);
            lemma_pattern_of_value(val@);
        }
        let word = native::fetch_add(dst, word_of(val));
        pattern_of(word, dst.size())
    } else {
        fallback::atomic_add(locks, dst, val, order)
    }
}

/// Subtracts `val` from the location, wrapping around at its width, and
/// returns what was there before.
pub fn atomic_sub(
    caps: &Capabilities,
    locks: &mut SpinLockTable,
    dst: &mut Location,
    val: &[u8],
    order: Ordering,
) -> (prior: Vec<u8>)
    requires
        val@.len() == old(dst)@.len(),
        !caps.native_for(old(dst)) ==> !old(locks).cell_for(old(dst).spec_addr()).is_locked(),
    ensures
        prior@ == old(dst)@,
        final(dst)@ == wrapping_difference(old(dst)@, val@),
        final(dst).same_place(old(dst)),
        final(locks).used_by(
            old(locks),
            caps.native_for(old(dst)),
            old(dst).spec_addr(),
            order,
            order,
        ),
{
    if caps.is_native_for(dst) {
        proof {
            lemma_pattern_of_value(dst@);
            lemma_pattern_of_value(val@);
        }
        let word = native::fetch_sub(dst, word_of(val));
        pattern_of(word, dst.size())
    } else {
        fallback::atomic_sub(locks, dst, val, order)
    }
}

/// Replaces the location by its bitwise conjunction with `val` and returns
/// what was there before.
pub fn atomic_and(
    caps: &Capabilities,
    locks: &mut SpinLockTable,
    dst: &mut Location,
    val: &[u8],
    order: Ordering,
) -> (prior: Vec<u8>)
    requires
        val@.len() == old(dst)@.len(),
        !caps.native_for(old(dst)) ==> !old(locks).cell_for(old(dst).spec_addr()).is_locked(),
    ensures
        prior@ == old(dst)@,
        final(dst)@ == bitwise_and(old(dst)@, val@),
        final(dst).same_place(old(dst)),
        final(locks).used_by(
            old(locks),
            caps.native_for(old(dst)),
            old(dst).spec_addr(),
            order,
            order,
        ),
{
    if caps.is_native_for(dst) {
        proof {
            lemma_pattern_of_value(dst@);
            lemma_pattern_of_value(val@);
        }
        let word = native::fetch_and(dst, word_of(val));
        pattern_of(word, dst.size())
    } else {
        fallback::atomic_and(locks, dst, val, order)
    }
}

/// Replaces the location by its bitwise disjunction with `val` and returns
/// what was there before.
pub fn atomic_or(
    caps: &Capabilities,
    locks: &mut SpinLockTable,
    dst: &mut Location,
    val: &[u8],
    order: Ordering,
) -> (prior: Vec<u8>)
    requires
        val@.len() == old(dst)@.len(),
        !caps.native_for(old(dst)) ==> !old(locks).cell_for(old(dst).spec_addr()).is_locked(),
    ensures
        prior@ == old(dst)@,
        final(dst)@ == bitwise_or(old(dst)@, val@),
        final(dst).same_place(old(dst)),
        final(locks).used_by(
            old(locks),
            caps.native_for(old(dst)),
            old(dst).spec_addr(),
            order,
            order,
        ),
{
    if caps.is_native_for(dst) {
        proof {
            lemma_pattern_of_value(dst@);
            lemma_pattern_of_value(val@);
        }
        let word = native::fetch_or(dst, word_of(val));
        pattern_of(word, dst.size())
    } else {
        fallback::atomic_or(locks, dst, val, order)
    }
}

/// Replaces the location by its bitwise exclusive disjunction with `val` and
/// returns what was there before.
pub fn atomic_xor(
    caps: &Capabilities,
    locks: &mut SpinLockTable,
    dst: &mut Location,
    val: &[u8],
    order: Ordering,
) -> (prior: Vec<u8>)
    requires
        val@.len() == old(dst)@.len(),
        !caps.native_for(old(dst)) ==> !old(locks).cell_for(old(dst).spec_addr()).is_locked(),
    ensures
        prior@ == old(dst)@,
        final(dst)@ == bitwise_xor(old(dst)@, val@),
        final(dst).same_place(old(dst)),
        final(locks).used_by(
            old(locks),
            caps.native_for(old(dst)),
            old(dst).spec_addr(),
            order,
            order,
        ),
{
    if caps.is_native_for(dst) {
        proof {
            lemma_pattern_of_value(dst@);
            lemma_pattern_of_value(val@);
        }
        let word = native::fetch_xor(dst, word_of(val));
        pattern_of(word, dst.size())
    } else {
        fallback::atomic_xor(locks, dst, val, order)
    }
}

/// Replaces the location by the smaller of itself and `val`, both read in
/// two's complement, and returns what was there before.
pub fn atomic_min(
    caps: &Capabilities,
    locks: &mut SpinLockTable,
    dst: &mut Location,
    val: &[u8],
    order: Ordering,
) -> (prior: Vec<u8>)
    requires
        val@.len() == old(dst)@.len(),
        !caps.native_signed_min_for(old(dst)) ==> !old(locks).cell_for(old(dst).spec_addr()).is_locked(),
    ensures
        prior@ == old(dst)@,
        final(dst)@ == smaller_signed(old(dst)@, val@),
        final(dst).same_place(old(dst)),
        final(locks).used_by(
            old(locks),
            caps.native_signed_min_for(old(dst)),
            old(dst).spec_addr(),
            order,
            order,
        ),
{
    if caps.is_native_signed_min_for(dst) {
        proof {
            lemma_pattern_of_value(dst@);
            lemma_pattern_of_value(val@);
        }
        let word = native::fetch_min(dst, word_of(val), Sign::Signed);
        pattern_of(word, dst.size())
    } else {
        fallback::atomic_min(locks, dst, val, Sign::Signed, order)
    }
}

/// Replaces the location by the larger of itself and `val`, both read in
/// two's complement, and returns what was there before.
pub fn atomic_max(
    caps: &Capabilities,
    locks: &mut SpinLockTable,
    dst: &mut Location,
    val: &[u8],
    order: Ordering,
) -> (prior: Vec<u8>)
    requires
        val@.len() == old(dst)@.len(),
        !caps.native_signed_min_for(old(dst)) ==> !old(locks).cell_for(old(dst).spec_addr()).is_locked(),
    ensures
        prior@ == old(dst)@,
        final(dst)@ == larger_signed(old(dst)@, val@),
        final(dst).same_place(old(dst)),
        final(locks).used_by(
            old(locks),
            caps.native_signed_min_for(old(dst)),
            old(dst).spec_addr(),
            order,
            order,
        ),
{
    if caps.is_native_signed_min_for(dst) {
        proof {
            lemma_pattern_of_value(dst@);
            lemma_pattern_of_value(val@);
        }
        let word = native::fetch_max(dst, word_of(val), Sign::Signed);
        pattern_of(word, dst.size())
    } else {
        fallback::atomic_max(locks, dst, val, Sign::Signed, order)
    }
}

/// Replaces the location by the smaller of itself and `val`, both read as
/// unsigned numbers, and returns what was there before.
pub fn atomic_umin(
    caps: &Capabilities,
    locks: &mut SpinLockTable,
    dst: &mut Location,
    val: &[u8],
    order: Ordering,
) -> (prior: Vec<u8>)
    requires
        val@.len() == old(dst)@.len(),
        !caps.native_unsigned_min_for(old(dst)) ==> !old(locks).cell_for(old(dst).spec_addr()).is_locked(),
    ensures
        prior@ == old(dst)@,
        final(dst)@ == smaller_unsigned(old(dst)@, val@),
        final(dst).same_place(old(dst)),
        final(locks).used_by(
            old(locks),
            caps.native_unsigned_min_for(old(dst)),
            old(dst).spec_addr(),
            order,
            order,
        ),
{
    if caps.is_native_unsigned_min_for(dst) {
        proof {
            lemma_pattern_of_value(dst@);
            lemma_pattern_of_value(val@);
        }
        let word = native::fetch_min(dst, word_of(val), Sign::Unsigned);
        pattern_of(word, dst.size())
    } else {
        fallback::atomic_min(locks, dst, val, Sign::Unsigned, order)
    }
}

/// Replaces the location by the larger of itself and `val`, both read as
/// unsigned numbers, and returns what was there before.
pub fn atomic_umax(
    caps: &Capabilities,
    locks: &mut SpinLockTable,
    dst: &mut Location,
    val: &[u8],
    order: Ordering,
) -> (prior: Vec<u8>)
    requires
        val@.len() == old(dst)@.len(),
        !caps.native_unsigned_min_for(old(dst)) ==> !old(locks).cell_for(old(dst).spec_addr()).is_locked(),
    ensures
        prior@ == old(dst)@,
        final(dst)@ == larger_unsigned(old(dst)@, val@),
        final(dst).same_place(old(dst)),
        final(locks).used_by(
            old(locks),
            caps.native_unsigned_min_for(old(dst)),
            old(dst).spec_addr(),
            order,
            order,
        ),
{
    if caps.is_native_unsigned_min_for(dst) {
        proof {
            lemma_pattern_of_value(dst@);
            lemma_pattern_of_value(val@);
        }
        let word = native::fetch_max(dst, word_of(val), Sign::Unsigned);
        pattern_of(word, dst.size())
    } else {
        fallback::atomic_max(locks, dst, val, Sign::Unsigned, order)
    }
}

} // verus!
