//! Native primitives.
//!
//! A location of at most eight bytes can be read as one machine word. A native
//! primitive takes the word out of the location, computes on it as an integer
//! of the location's width, and puts the result back, in one indivisible step.
//! Operands and results are words: the numbers that the patterns stand for,
//! least significant byte first.

use vstd::prelude::*;
use vstd::arithmetic::div_mod::{lemma_div_denominator, lemma_mod_twice, lemma_small_mod};
use crate::location::Location;
use crate::pattern::{
    bitwise_and,
    bitwise_or,
    bitwise_xor,
    larger,
    le_pattern,
    le_value,
    lemma_le_value_bound,
    lemma_le_value_take,
    lemma_pattern_congruent,
    lemma_pattern_of_value,
    lemma_pow256_increases,
    lemma_pow256_of_eight,
    lemma_pow256_positive,
    lemma_value_of_pattern,
    pow256,
    signed_value,
    smaller,
    wrapping_difference,
    wrapping_sum,
    Sign,
};

verus! {

/// The largest size in bytes of a location that a native primitive can serve.
pub const MAX_WIDTH: usize = 8;

/// The number of patterns of `width` bytes.
pub fn range_of(width: usize) -> (r: u128)
    requires
        width <= MAX_WIDTH,
    ensures
        r == pow256(width as nat),
        0 < r <= 0x1_0000_0000_0000_0000,
{
    let mut r: u128 = 1;
    let mut i: usize = 0;
    proof {
        lemma_pow256_of_eight();
    }
    while i < width
        invariant
            i <= width <= MAX_WIDTH,
            r == pow256(i as nat),
            pow256(8) == 0x1_0000_0000_0000_0000,
        decreases width - i,
    {
        proof {
            lemma_pow256_increases((i + 1) as nat, 8);
        }
        r = r * 256;
        i += 1;
    }
    proof {
        lemma_pow256_increases(width as nat, 8);
        lemma_pow256_positive(width as nat);
    }
    r
}

/// The word that a pattern of at most eight bytes stands for.
pub fn word_of(bytes: &[u8]) -> (word: u64)
    requires
        bytes@.len() <= MAX_WIDTH,
    ensures
        word == le_value(bytes@),
        word < pow256(bytes@.len()),
{
    let n: usize = bytes.len();
    let mut acc: u128 = 0;
    let mut unit: u128 = 1;
    let mut i: usize = 0;
    proof {
        lemma_pow256_of_eight();
    }
    while i < n
        invariant
            n == bytes@.len(),
            i <= n <= MAX_WIDTH,
            acc == le_value(bytes@.take(i as int)),
            unit == pow256(i as nat),
            pow256(8) == 0x1_0000_0000_0000_0000,
        decreases n - i,
    {
        proof {
            lemma_le_value_take(bytes@, i as int);
            lemma_le_value_bound(bytes@.take(i as int));
            lemma_le_value_bound(bytes@.take(i + 1));
            lemma_pow256_increases(i as nat, 7);
            lemma_pow256_increases((i + 1) as nat, 8);
            reveal_with_fuel(pow256, 8);
        }
        assert((bytes@[i as int] as nat) * unit <= 255 * pow256(7)) by (nonlinear_arith)
            requires
                unit <= pow256(7),
                bytes@[i as int] <= 255,
        ;
        acc = acc + (bytes[i] as u128) * unit;
        unit = unit * 256;
        i += 1;
    }
    proof {
        assert(bytes@.take(n as int) =~= bytes@);
        lemma_le_value_bound(bytes@);
        lemma_pow256_increases(n as nat, 8);
    }
    acc as u64
}

/// The pattern of `width` bytes that stands for a word modulo the number of
/// such patterns.
pub fn pattern_of(word: u64, width: usize) -> (bytes: Vec<u8>)
    ensures
        bytes@ == le_pattern(word as nat, width as nat),
{
    let mut out: Vec<u8> = Vec::with_capacity(width);
    let mut rest: u64 = word;
    let mut i: usize = 0;
    assert(pow256(0) == 1);
    while i < width
        invariant
            i <= width,
            out@.len() == i,
            rest == (word as nat) / pow256(i as nat),
            forall|j: int| 0 <= j < i ==> out@[j] == ((word as nat) / pow256(j as nat)) % 256,
        decreases width - i,
    {
        proof {
            lemma_pow256_positive(i as nat);
            lemma_div_denominator(word as int, pow256(i as nat) as int, 256);
            assert(pow256(i as nat) * 256 == pow256((i + 1) as nat)) by (nonlinear_arith)
                requires
                    pow256((i + 1) as nat) == 256 * pow256(i as nat),
            ;
        }
        out.push((rest % 256) as u8);
        rest = rest / 256;
        i += 1;
    }
    assert(out@ =~= le_pattern(word as nat, width as nat));
    out
}

/// Reads the location as a word.
pub fn load(dst: &Location) -> (word: u64)
    requires
        dst@.len() <= MAX_WIDTH,
    ensures
        word == le_value(dst@),
{
    let bytes = dst.read();
    word_of(bytes.as_slice())
}

/// Puts `word` into the location.
pub fn store(dst: &mut Location, word: u64)
    requires
        old(dst)@.len() <= MAX_WIDTH,
    ensures
        final(dst)@ == le_pattern(word as nat, old(dst)@.len()),
        final(dst).same_place(old(dst)),
{
    let bytes = pattern_of(word, dst.size());
    dst.write(bytes.as_slice());
}

/// Puts `word` into the location and returns the word that was there before.
pub fn swap(dst: &mut Location, word: u64) -> (prior: u64)
    requires
        old(dst)@.len() <= MAX_WIDTH,
    ensures
        prior == le_value(old(dst)@),
        final(dst)@ == le_pattern(word as nat, old(dst)@.len()),
        final(dst).same_place(old(dst)),
{
    let prior = load(dst);
    store(dst, word);
    prior
}

/// Puts `new` into the location if it holds `current`, and leaves it as it is
/// if not. Either way returns the word that it held.
pub fn compare_exchange(dst: &mut Location, current: u64, new: u64) -> (r: Result<u64, u64>)
    requires
        old(dst)@.len() <= MAX_WIDTH,
    ensures
        match r {
            Ok(prior) => prior == current && prior == le_value(old(dst)@) && final(dst)@
                == le_pattern(new as nat, old(dst)@.len()),
            Err(prior) => prior != current && prior == le_value(old(dst)@) && final(dst)@ == old(
                dst,
            )@,
        },
        final(dst).same_place(old(dst)),
{
    let prior = load(dst);
    if prior == current {
        store(dst, new);
        Ok(prior)
    } else {
        Err(prior)
    }
}

/// The word of `width` bytes that is left of `val` when the bytes above are
/// cut off.
pub fn truncated(val: u64, width: usize) -> (r: u64)
    requires
        width <= MAX_WIDTH,
    ensures
        r == val as nat % pow256(width as nat),
        r < pow256(width as nat),
        le_pattern(r as nat, width as nat) == le_pattern(val as nat, width as nat),
        le_value(le_pattern(val as nat, width as nat)) == r,
{
    let range = range_of(width);
    let r: u128 = (val as u128) % range;
    proof {
        lemma_mod_twice(val as int, range as int);
        lemma_pattern_congruent(r as nat, val as nat, width as nat);
        lemma_value_of_pattern(val as nat, width as nat);
    }
    r as u64
}

/// Adds `val` to the word in the location, wrapping around at the width of the
/// location, and returns the word that was there before.
pub fn fetch_add(dst: &mut Location, val: u64) -> (prior: u64)
    requires
        old(dst)@.len() <= MAX_WIDTH,
    ensures
        prior == le_value(old(dst)@),
        final(dst)@ == wrapping_sum(old(dst)@, le_pattern(val as nat, old(dst)@.len())),
        final(dst).same_place(old(dst)),
{
    let prior = load(dst);
    let range = range_of(dst.size());
    let operand = truncated(val, dst.size());
    let sum: u128 = (prior as u128 + operand as u128) % range;
    proof {
        let n = dst@.len();
        lemma_mod_twice(prior + operand, range as int);
        lemma_pattern_congruent(sum as nat, (prior + operand) as nat, n);
    }
    store(dst, sum as u64);
    prior
}

/// Subtracts `val` from the word in the location, wrapping around at the width
/// of the location, and returns the word that was there before.
pub fn fetch_sub(dst: &mut Location, val: u64) -> (prior: u64)
    requires
        old(dst)@.len() <= MAX_WIDTH,
    ensures
        prior == le_value(old(dst)@),
        final(dst)@ == wrapping_difference(old(dst)@, le_pattern(val as nat, old(dst)@.len())),
        final(dst).same_place(old(dst)),
{
    let prior = load(dst);
    let range = range_of(dst.size());
    let operand = truncated(val, dst.size());
    let difference: u128 = (prior as u128 + range - operand as u128) % range;
    proof {
        let n = dst@.len();
        lemma_mod_twice(prior + range - operand, range as int);
        lemma_pattern_congruent(difference as nat, (prior + range - operand) as nat, n);
    }
    store(dst, difference as u64);
    prior
}

/// A word without its `j` least significant bytes.
pub open spec fn without_low_bytes(a: u64, j: nat) -> u64 {
    (a as nat / pow256(j)) as u64
}

/// Dropping low bytes one at a time.
proof fn lemma_without_low_bytes(a: u64, j: nat)
    ensures
        without_low_bytes(a, j) == a as nat / pow256(j),
        without_low_bytes(a, 0) == a,
        without_low_bytes(a, j + 1) == without_low_bytes(a, j) / 256,
{
    lemma_pow256_positive(j);
    lemma_pow256_positive(j + 1);
    vstd::arithmetic::div_mod::lemma_div_nonincreasing(a as int, pow256(j) as int);
    vstd::arithmetic::div_mod::lemma_div_pos_is_pos(a as int, pow256(j) as int);
    vstd::arithmetic::div_mod::lemma_div_nonincreasing(a as int, pow256(j + 1) as int);
    vstd::arithmetic::div_mod::lemma_div_pos_is_pos(a as int, pow256(j + 1) as int);
    lemma_div_denominator(a as int, pow256(j) as int, 256);
    assert(pow256(j) * 256 == pow256(j + 1)) by (nonlinear_arith)
        requires
            pow256(j + 1) == 256 * pow256(j),
    ;
    assert(pow256(0) == 1);
    assert(a as nat / 1 == a);
}

/// Dropping low bytes goes through the bitwise conjunction.
proof fn lemma_and_shifted(a: u64, b: u64, j: nat)
    ensures
        without_low_bytes(a & b, j) == without_low_bytes(a, j) & without_low_bytes(b, j),
    decreases j,
{
    lemma_without_low_bytes(a, 0);
    lemma_without_low_bytes(b, 0);
    lemma_without_low_bytes(a & b, 0);
    if j > 0 {
        let i = (j - 1) as nat;
        lemma_and_shifted(a, b, i);
        lemma_without_low_bytes(a, i);
        lemma_without_low_bytes(b, i);
        lemma_without_low_bytes(a & b, i);
        let x = without_low_bytes(a, i);
        let y = without_low_bytes(b, i);
        assert((x & y) / 256 == (x / 256) & (y / 256)) by (bit_vector);
    }
}

/// The bytes of the bitwise conjunction of two words are the bitwise
/// conjunctions of their bytes.
pub proof fn lemma_and_by_bytes(a: u64, b: u64, n: nat)
    ensures
        le_pattern((a & b) as nat, n) == bitwise_and(le_pattern(a as nat, n), le_pattern(b as nat, n)),
{
    assert forall|j: int| 0 <= j < n implies le_pattern((a & b) as nat, n)[j] == bitwise_and(
        le_pattern(a as nat, n),
        le_pattern(b as nat, n),
    )[j] by {
        lemma_and_shifted(a, b, j as nat);
        lemma_without_low_bytes(a, j as nat);
        lemma_without_low_bytes(b, j as nat);
        lemma_without_low_bytes(a & b, j as nat);
        let x = without_low_bytes(a, j as nat);
        let y = without_low_bytes(b, j as nat);
        assert(((x & y) % 256) as u8 == ((x % 256) as u8) & ((y % 256) as u8)) by (bit_vector);
    }
    assert(le_pattern((a & b) as nat, n) =~= bitwise_and(
        le_pattern(a as nat, n),
        le_pattern(b as nat, n),
    ));
}

/// Dropping low bytes goes through the bitwise disjunction.
proof fn lemma_or_shifted(a: u64, b: u64, j: nat)
    ensures
        without_low_bytes(a | b, j) == without_low_bytes(a, j) | without_low_bytes(b, j),
    decreases j,
{
    lemma_without_low_bytes(a, 0);
    lemma_without_low_bytes(b, 0);
    lemma_without_low_bytes(a | b, 0);
    if j > 0 {
        let i = (j - 1) as nat;
        lemma_or_shifted(a, b, i);
        lemma_without_low_bytes(a, i);
        lemma_without_low_bytes(b, i);
        lemma_without_low_bytes(a | b, i);
        let x = without_low_bytes(a, i);
        let y = without_low_bytes(b, i);
        assert((x | y) / 256 == (x / 256) | (y / 256)) by (bit_vector);
    }
}

/// The bytes of the bitwise disjunction of two words are the bitwise
/// disjunctions of their bytes.
pub proof fn lemma_or_by_bytes(a: u64, b: u64, n: nat)
    ensures
        le_pattern((a | b) as nat, n) == bitwise_or(le_pattern(a as nat, n), le_pattern(b as nat, n)),
{
    assert forall|j: int| 0 <= j < n implies le_pattern((a | b) as nat, n)[j] == bitwise_or(
        le_pattern(a as nat, n),
        le_pattern(b as nat, n),
    )[j] by {
        lemma_or_shifted(a, b, j as nat);
        lemma_without_low_bytes(a, j as nat);
        lemma_without_low_bytes(b, j as nat);
        lemma_without_low_bytes(a | b, j as nat);
        let x = without_low_bytes(a, j as nat);
        let y = without_low_bytes(b, j as nat);
        assert(((x | y) % 256) as u8 == ((x % 256) as u8) | ((y % 256) as u8)) by (bit_vector);
    }
    assert(le_pattern((a | b) as nat, n) =~= bitwise_or(
        le_pattern(a as nat, n),
        le_pattern(b as nat, n),
    ));
}

/// Dropping low bytes goes through the bitwise exclusive disjunction.
proof fn lemma_xor_shifted(a: u64, b: u64, j: nat)
    ensures
        without_low_bytes(a ^ b, j) == without_low_bytes(a, j) ^ without_low_bytes(b, j),
    decreases j,
{
    lemma_without_low_bytes(a, 0);
    lemma_without_low_bytes(b, 0);
    lemma_without_low_bytes(a ^ b, 0);
    if j > 0 {
        let i = (j - 1) as nat;
        lemma_xor_shifted(a, b, i);
        lemma_without_low_bytes(a, i);
        lemma_without_low_bytes(b, i);
        lemma_without_low_bytes(a ^ b, i);
        let x = without_low_bytes(a, i);
        let y = without_low_bytes(b, i);
        assert((x ^ y) / 256 == (x / 256) ^ (y / 256)) by (bit_vector);
    }
}

/// The bytes of the bitwise exclusive disjunction of two words are the bitwise
/// exclusive disjunctions of their bytes.
pub proof fn lemma_xor_by_bytes(a: u64, b: u64, n: nat)
    ensures
        le_pattern((a ^ b) as nat, n) == bitwise_xor(le_pattern(a as nat, n), le_pattern(b as nat, n)),
{
    assert forall|j: int| 0 <= j < n implies le_pattern((a ^ b) as nat, n)[j] == bitwise_xor(
        le_pattern(a as nat, n),
        le_pattern(b as nat, n),
    )[j] by {
        lemma_xor_shifted(a, b, j as nat);
        lemma_without_low_bytes(a, j as nat);
        lemma_without_low_bytes(b, j as nat);
        lemma_without_low_bytes(a ^ b, j as nat);
        let x = without_low_bytes(a, j as nat);
        let y = without_low_bytes(b, j as nat);
        assert(((x ^ y) % 256) as u8 == ((x % 256) as u8) ^ ((y % 256) as u8)) by (bit_vector);
    }
    assert(le_pattern((a ^ b) as nat, n) =~= bitwise_xor(
        le_pattern(a as nat, n),
        le_pattern(b as nat, n),
    ));
}

/// Replaces the word in the location by its bitwise conjunction with `val` and
/// returns the word that was there before.
pub fn fetch_and(dst: &mut Location, val: u64) -> (prior: u64)
    requires
        old(dst)@.len() <= MAX_WIDTH,
    ensures
        prior == le_value(old(dst)@),
        final(dst)@ == bitwise_and(old(dst)@, le_pattern(val as nat, old(dst)@.len())),
        final(dst).same_place(old(dst)),
{
    let prior = load(dst);
    proof {
        lemma_and_by_bytes(prior, val, dst@.len());
        lemma_pattern_of_value(dst@);
    }
    store(dst, prior & val);
    prior
}

/// Replaces the word in the location by its bitwise disjunction with `val` and
/// returns the word that was there before.
pub fn fetch_or(dst: &mut Location, val: u64) -> (prior: u64)
    requires
        old(dst)@.len() <= MAX_WIDTH,
    ensures
        prior == le_value(old(dst)@),
        final(dst)@ == bitwise_or(old(dst)@, le_pattern(val as nat, old(dst)@.len())),
        final(dst).same_place(old(dst)),
{
    let prior = load(dst);
    proof {
        lemma_or_by_bytes(prior, val, dst@.len());
        lemma_pattern_of_value(dst@);
    }
    store(dst, prior | val);
    prior
}

/// Replaces the word in the location by its bitwise exclusive disjunction with `val` and
/// returns the word that was there before.
pub fn fetch_xor(dst: &mut Location, val: u64) -> (prior: u64)
    requires
        old(dst)@.len() <= MAX_WIDTH,
    ensures
        prior == le_value(old(dst)@),
        final(dst)@ == bitwise_xor(old(dst)@, le_pattern(val as nat, old(dst)@.len())),
        final(dst).same_place(old(dst)),
{
    let prior = load(dst);
    proof {
        lemma_xor_by_bytes(prior, val, dst@.len());
        lemma_pattern_of_value(dst@);
    }
    store(dst, prior ^ val);
    prior
}

/// Whether the first of two words of `width` bytes is the smaller under a
/// reading.
pub fn word_less(sign: Sign, a: u64, b: u64, width: usize) -> (r: bool)
    requires
        width <= MAX_WIDTH,
        a < pow256(width as nat),
        b < pow256(width as nat),
    ensures
        r == match sign {
            Sign::Signed => signed_value(le_pattern(a as nat, width as nat)) < signed_value(
                le_pattern(b as nat, width as nat),
            ),
            Sign::Unsigned => a < b,
        },
{
    proof {
        lemma_value_of_pattern(a as nat, width as nat);
        lemma_value_of_pattern(b as nat, width as nat);
        lemma_small_mod(a as nat, pow256(width as nat));
        lemma_small_mod(b as nat, pow256(width as nat));
    }
    match sign {
        Sign::Unsigned => a < b,
        Sign::Signed => {
            let range = range_of(width);
            let a_negative: bool = 2 * (a as u128) >= range;
            let b_negative: bool = 2 * (b as u128) >= range;
            if a_negative != b_negative {
                a_negative
            } else {
                a < b
            }
        },
    }
}

/// Replaces the word in the location by the smaller of itself and `val` and
/// returns the word that was there before.
pub fn fetch_min(dst: &mut Location, val: u64, sign: Sign) -> (prior: u64)
    requires
        old(dst)@.len() <= MAX_WIDTH,
    ensures
        prior == le_value(old(dst)@),
        final(dst)@ == smaller(sign, old(dst)@, le_pattern(val as nat, old(dst)@.len())),
        final(dst).same_place(old(dst)),
{
    let prior = load(dst);
    let operand = truncated(val, dst.size());
    proof {
        lemma_le_value_bound(dst@);
        lemma_pattern_of_value(dst@);
    }
    if word_less(sign, operand, prior, dst.size()) {
        store(dst, operand);
    }
    prior
}

/// Replaces the word in the location by the larger of itself and `val` and
/// returns the word that was there before.
pub fn fetch_max(dst: &mut Location, val: u64, sign: Sign) -> (prior: u64)
    requires
        old(dst)@.len() <= MAX_WIDTH,
    ensures
        prior == le_value(old(dst)@),
        final(dst)@ == larger(sign, old(dst)@, le_pattern(val as nat, old(dst)@.len())),
        final(dst).same_place(old(dst)),
{
    let prior = load(dst);
    let operand = truncated(val, dst.size());
    proof {
        lemma_le_value_bound(dst@);
        lemma_pattern_of_value(dst@);
    }
    if !word_less(sign, operand, prior, dst.size()) {
        store(dst, operand);
    }
    prior
}

} // verus!
