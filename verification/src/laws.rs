//! What holds of the operations taken together.
//!
//! An operation is served natively, through the word that a pattern stands
//! for, or by emulation, on the bytes of the pattern. The laws below hold on
//! both ways, and so for every platform.

use vstd::prelude::*;
use vstd::arithmetic::div_mod::lemma_small_mod;
use core::sync::atomic::Ordering;
use crate::capability::Capabilities;
use crate::fallback::{exchange_result, exchange_stored, SpinLockTable};
use crate::location::Location;
use crate::ops;
use crate::pattern::{
    bitwise_and,
    bitwise_or,
    bitwise_xor,
    filled,
    larger,
    le_pattern,
    le_value,
    lemma_le_value_injective,
    lemma_pattern_congruent,
    lemma_pattern_of_value,
    lemma_pow256_positive,
    lemma_value_of_pattern,
    lemma_zero_value,
    pow256,
    smaller,
    wrapping_sum,
    Sign,
};

verus! {

/// What becomes of a pattern that a native primitive takes in as a word and
/// gives back as a pattern of the same width.
pub open spec fn through_word(p: Seq<u8>) -> Seq<u8> {
    le_pattern(le_value(p), p.len())
}

/// The pattern that a store of `val` leaves in a location.
pub open spec fn left_by_store(native: bool, val: Seq<u8>) -> Seq<u8> {
    if native {
        through_word(val)
    } else {
        val
    }
}

/// The pattern that a load returns from a location that holds `stored`.
pub open spec fn returned_by_load(native: bool, stored: Seq<u8>) -> Seq<u8> {
    if native {
        through_word(stored)
    } else {
        stored
    }
}

/// The pattern that a swap of `val` leaves in a location.
pub open spec fn left_by_swap(native: bool, val: Seq<u8>) -> Seq<u8> {
    left_by_store(native, val)
}

/// The pattern that a swap returns from a location that holds `stored`.
pub open spec fn returned_by_swap(native: bool, stored: Seq<u8>) -> Seq<u8> {
    returned_by_load(native, stored)
}

/// The pattern that a location holds after `n` additions of `step`, one after
/// another, if it held `start` before the first.
pub open spec fn added_times(start: Seq<u8>, step: Seq<u8>, n: nat) -> Seq<u8>
    decreases n,
{
    if n == 0 {
        start
    } else {
        wrapping_sum(added_times(start, step, (n - 1) as nat), step)
    }
}

/// A count as a natural number.
pub open spec fn count(n: usize) -> nat {
    n as nat
}

/// The count after one more.
proof fn lemma_count_next(i: usize)
    requires
        i < usize::MAX,
    ensures
        count((i + 1) as usize) == count(i) + 1,
{
}

/// Nothing is lost on the way through a word: the pattern that comes back is
/// the pattern that went in, bit for bit.
pub proof fn law_word_round_trip(p: Seq<u8>)
    ensures
        through_word(p) == p,
{
    lemma_pattern_of_value(p);
}

/// A load that follows a store returns the pattern that was stored, bit for
/// bit, whether the location is served natively or emulated.
pub proof fn law_store_then_load(native: bool, val: Seq<u8>)
    ensures
        returned_by_load(native, left_by_store(native, val)) == val,
{
    law_word_round_trip(val);
}

/// A swap that follows a store returns the pattern that was stored, and a
/// load that follows the swap returns the pattern that was swapped in,
/// whether the location is served natively or emulated.
pub proof fn law_store_swap_load(native: bool, first: Seq<u8>, second: Seq<u8>)
    ensures
        returned_by_swap(native, left_by_store(native, first)) == first,
        returned_by_load(native, left_by_swap(native, second)) == second,
{
    law_word_round_trip(first);
    law_word_round_trip(second);
}

/// Two patterns of one width stand for the same word exactly when they are
/// the same byte for byte: a native compare-exchange, which compares words,
/// and an emulated one, which compares bytes, decide alike.
pub proof fn law_words_compare_as_bytes(a: Seq<u8>, b: Seq<u8>)
    requires
        a.len() == b.len(),
    ensures
        le_value(a) == le_value(b) <==> a == b,
{
    if le_value(a) == le_value(b) {
        lemma_le_value_injective(a, b);
    }
}

/// A compare-exchange succeeds exactly when the location holds the expected
/// pattern byte for byte. It then leaves the new pattern there; when it fails
/// it leaves the location as it was. Either way it returns what the location
/// held.
pub proof fn law_compare_exchange(
    prior: Seq<u8>,
    current: Seq<u8>,
    new: Seq<u8>,
    r: Result<Vec<u8>, Vec<u8>>,
)
    requires
        exchange_result(prior, current, r),
    ensures
        r is Ok <==> prior == current,
        r is Ok ==> exchange_stored(prior, current, new) == new,
        r is Err ==> exchange_stored(prior, current, new) == prior,
        r matches Ok(p) ==> p@ == prior,
        r matches Err(p) ==> p@ == prior,
{
}

/// After `n` additions of one to a location that held zero, the location
/// holds `n`, wrapped around at its width. However the additions of several
/// threads fall into one another, each is indivisible, so they are additions
/// one after another: none is lost.
pub proof fn law_repeated_add(width: nat, n: nat)
    ensures
        added_times(filled(0, width), le_pattern(1, width), n) == le_pattern(n, width),
    decreases n,
{
    let zero = filled(0, width);
    let one = le_pattern(1, width);
    lemma_pow256_positive(width);
    if n == 0 {
        lemma_zero_value(width);
        lemma_value_of_pattern(0, width);
        lemma_small_mod(0, pow256(width));
        lemma_le_value_injective(zero, le_pattern(0, width));
    } else {
        let m = (n - 1) as nat;
        law_repeated_add(width, m);
        let before = le_pattern(m, width);
        lemma_value_of_pattern(m, width);
        lemma_value_of_pattern(1, width);
        vstd::arithmetic::div_mod::lemma_add_mod_noop(m as int, 1, pow256(width) as int);
        vstd::arithmetic::div_mod::lemma_mod_twice(
            (m as int) % (pow256(width) as int) + 1int % (pow256(width) as int),
            pow256(width) as int,
        );
        lemma_pattern_congruent(le_value(before) + le_value(one), n, width);
    }
}

/// A bitwise disjunction or exclusive disjunction with a pattern of zero bits
/// changes nothing, and neither does a bitwise conjunction with a pattern of
/// one bits.
pub proof fn law_bitwise_identities(a: Seq<u8>)
    ensures
        bitwise_or(a, filled(0, a.len())) == a,
        bitwise_xor(a, filled(0, a.len())) == a,
        bitwise_and(a, filled(0xff, a.len())) == a,
{
    assert forall|i: int| 0 <= i < a.len() implies bitwise_or(a, filled(0, a.len()))[i] == a[i]
        && bitwise_xor(a, filled(0, a.len()))[i] == a[i] && bitwise_and(
        a,
        filled(0xff, a.len()),
    )[i] == a[i] by {
        let x = a[i];
        assert(x | 0u8 == x) by (bit_vector);
        assert(x ^ 0u8 == x) by (bit_vector);
        assert(x & 0xffu8 == x) by (bit_vector);
    }
    assert(bitwise_or(a, filled(0, a.len())) =~= a);
    assert(bitwise_xor(a, filled(0, a.len())) =~= a);
    assert(bitwise_and(a, filled(0xff, a.len())) =~= a);
}

/// The smaller and the larger of a pattern and itself are that pattern: to
/// apply a minimum or a maximum with the value that a location holds changes
/// nothing.
pub proof fn law_min_max_idempotent(sign: Sign, a: Seq<u8>)
    ensures
        smaller(sign, a, a) == a,
        larger(sign, a, a) == a,
{
}

/// Stores `val` in the location and loads it back, both relaxed. What is
/// loaded is what was stored, on every platform.
pub fn store_then_load(
    caps: &Capabilities,
    locks: &mut SpinLockTable,
    dst: &mut Location,
    val: &[u8],
) -> (loaded: Vec<u8>)
    requires
        val@.len() == old(dst)@.len(),
        !caps.native_for(old(dst)) ==> !old(locks).cell_for(old(dst).spec_addr()).is_locked(),
    ensures
        loaded@ == val@,
        final(dst)@ == val@,
        final(dst).same_place(old(dst)),
        final(locks).used_by(
            old(locks),
            caps.native_for(old(dst)),
            old(dst).spec_addr(),
            Ordering::Relaxed,
            Ordering::Relaxed,
        ),
{
    ops::atomic_store(caps, locks, dst, val, Ordering::Relaxed);
    ops::atomic_load(caps, locks, dst, Ordering::Relaxed)
}

/// Stores `first` in the location, swaps `second` in and loads the location.
/// The swap returns `first` and the load returns `second`, on every platform
/// and for every ordering of the swap.
pub fn store_swap_load(
    caps: &Capabilities,
    locks: &mut SpinLockTable,
    dst: &mut Location,
    first: &[u8],
    second: &[u8],
    order: Ordering,
) -> (r: (Vec<u8>, Vec<u8>))
    requires
        first@.len() == old(dst)@.len(),
        second@.len() == old(dst)@.len(),
        !caps.native_for(old(dst)) ==> !old(locks).cell_for(old(dst).spec_addr()).is_locked(),
    ensures
        r.0@ == first@,
        r.1@ == second@,
        final(dst)@ == second@,
        final(dst).same_place(old(dst)),
        final(locks).used_by(
            old(locks),
            caps.native_for(old(dst)),
            old(dst).spec_addr(),
            Ordering::Relaxed,
            Ordering::Relaxed,
        ),
{
    ops::atomic_store(caps, locks, dst, first, Ordering::Relaxed);
    let swapped = ops::atomic_swap(caps, locks, dst, second, order);
    let loaded = ops::atomic_load(caps, locks, dst, Ordering::Relaxed);
    (swapped, loaded)
}

/// Adds `step` to the location `n` times, one addition after another, each
/// sequentially consistent.
pub fn add_repeatedly(
    caps: &Capabilities,
    locks: &mut SpinLockTable,
    dst: &mut Location,
    step: &[u8],
    n: usize,
)
    requires
        step@.len() == old(dst)@.len(),
        !caps.native_for(old(dst)) ==> !old(locks).cell_for(old(dst).spec_addr()).is_locked(),
    ensures
        final(dst)@ == added_times(old(dst)@, step@, count(n)),
        final(dst).same_place(old(dst)),
        n == 0 ==> final(locks)@ == old(locks)@,
        n > 0 ==> final(locks).used_by(
            old(locks),
            caps.native_for(old(dst)),
            old(dst).spec_addr(),
            Ordering::SeqCst,
            Ordering::SeqCst,
        ),
{
    let mut i: usize = 0;
    while i < n
        invariant
            i <= n,
            step@.len() == dst@.len(),
            dst.same_place(old(dst)),
            dst@ == added_times(old(dst)@, step@, count(i)),
            !caps.native_for(dst) ==> !locks.cell_for(dst.spec_addr()).is_locked(),
            caps.native_for(dst) == caps.native_for(old(dst)),
            i == 0 ==> locks@ == old(locks)@,
            i > 0 ==> locks.used_by(
                old(locks),
                caps.native_for(old(dst)),
                old(dst).spec_addr(),
                Ordering::SeqCst,
                Ordering::SeqCst,
            ),
        decreases n - i,
    {
        let ghost before = dst@;
        let _prior = ops::atomic_add(caps, locks, dst, step, Ordering::SeqCst);
        proof {
            crate::fallback::lemma_width_kept(before, step@);
            lemma_count_next(i);
        }
        i += 1;
    }
}

} // verus!
