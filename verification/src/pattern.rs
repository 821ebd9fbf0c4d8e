//! Bit patterns as byte sequences.
//!
//! The value stored at a location is a sequence of bytes. Where an operation
//! treats it as an integer, the bytes are read least significant first, as an
//! unsigned number or in two's complement. This module defines those readings
//! and the results of the arithmetic, bitwise and comparing operations on
//! patterns, and computes them byte by byte for patterns of any length.

use vstd::prelude::*;
use vstd::arithmetic::div_mod::{
    lemma_fundamental_div_mod_converse,
    lemma_mod_breakdown,
    lemma_small_mod,
};

verus! {

/// 256 to the power `n`: the number of patterns of `n` bytes.
pub open spec fn pow256(n: nat) -> nat
    decreases n,
{
    if n == 0 {
        1
    } else {
        256 * pow256((n - 1) as nat)
    }
}

/// The unsigned number that a pattern stands for, least significant byte first.
pub open spec fn le_value(b: Seq<u8>) -> nat
    decreases b.len(),
{
    if b.len() == 0 {
        0
    } else {
        le_value(b.drop_last()) + (b.last() as nat) * pow256((b.len() - 1) as nat)
    }
}

/// The pattern of `n` bytes that stands for `v` modulo `pow256(n)`.
pub open spec fn le_pattern(v: nat, n: nat) -> Seq<u8> {
    Seq::new(n, |i: int| ((v / pow256(i as nat)) % 256) as u8)
}

/// The number that a pattern stands for in two's complement.
pub open spec fn signed_value(b: Seq<u8>) -> int {
    if 2 * le_value(b) >= pow256(b.len()) {
        le_value(b) - pow256(b.len())
    } else {
        le_value(b) as int
    }
}

/// The sum of two patterns, wrapping around at the width of the first.
pub open spec fn wrapping_sum(a: Seq<u8>, b: Seq<u8>) -> Seq<u8> {
    le_pattern(le_value(a) + le_value(b), a.len())
}

/// The difference of two patterns of one width, wrapping around at that width.
pub open spec fn wrapping_difference(a: Seq<u8>, b: Seq<u8>) -> Seq<u8> {
    le_pattern((le_value(a) + pow256(b.len()) - le_value(b)) as nat, a.len())
}

/// The bitwise conjunction of two patterns.
pub open spec fn bitwise_and(a: Seq<u8>, b: Seq<u8>) -> Seq<u8> {
    Seq::new(a.len(), |i: int| a[i] & b[i])
}

/// The bitwise disjunction of two patterns.
pub open spec fn bitwise_or(a: Seq<u8>, b: Seq<u8>) -> Seq<u8> {
    Seq::new(a.len(), |i: int| a[i] | b[i])
}

/// The bitwise exclusive disjunction of two patterns.
pub open spec fn bitwise_xor(a: Seq<u8>, b: Seq<u8>) -> Seq<u8> {
    Seq::new(a.len(), |i: int| a[i] ^ b[i])
}

/// The smaller of two patterns read as unsigned numbers; the first where they
/// stand for the same number.
pub open spec fn smaller_unsigned(a: Seq<u8>, b: Seq<u8>) -> Seq<u8> {
    if le_value(b) < le_value(a) {
        b
    } else {
        a
    }
}

/// The larger of two patterns read as unsigned numbers; the second where they
/// stand for the same number.
pub open spec fn larger_unsigned(a: Seq<u8>, b: Seq<u8>) -> Seq<u8> {
    if le_value(b) < le_value(a) {
        a
    } else {
        b
    }
}

/// The smaller of two patterns read in two's complement; the first where they
/// stand for the same number.
pub open spec fn smaller_signed(a: Seq<u8>, b: Seq<u8>) -> Seq<u8> {
    if signed_value(b) < signed_value(a) {
        b
    } else {
        a
    }
}

/// The larger of two patterns read in two's complement; the second where they
/// stand for the same number.
pub open spec fn larger_signed(a: Seq<u8>, b: Seq<u8>) -> Seq<u8> {
    if signed_value(b) < signed_value(a) {
        a
    } else {
        b
    }
}

/// How an operation that finds the smaller or the larger of two patterns reads
/// them.
#[derive(Clone, Copy, Debug)]
pub enum Sign {
    /// In two's complement.
    Signed,
    /// As unsigned numbers.
    Unsigned,
}

/// The smaller of two patterns under a reading.
pub open spec fn smaller(sign: Sign, a: Seq<u8>, b: Seq<u8>) -> Seq<u8> {
    match sign {
        Sign::Signed => smaller_signed(a, b),
        Sign::Unsigned => smaller_unsigned(a, b),
    }
}

/// The larger of two patterns under a reading.
pub open spec fn larger(sign: Sign, a: Seq<u8>, b: Seq<u8>) -> Seq<u8> {
    match sign {
        Sign::Signed => larger_signed(a, b),
        Sign::Unsigned => larger_unsigned(a, b),
    }
}

/// A pattern of `n` bytes that are all `byte`.
pub open spec fn filled(byte: u8, n: nat) -> Seq<u8> {
    Seq::new(n, |i: int| byte)
}

/// `pow256` is never zero.
pub proof fn lemma_pow256_positive(n: nat)
    ensures
        pow256(n) >= 1,
    decreases n,
{
    if n > 0 {
        lemma_pow256_positive((n - 1) as nat);
    }
}

/// `pow256` grows with its argument.
pub proof fn lemma_pow256_increases(m: nat, n: nat)
    requires
        m <= n,
    ensures
        pow256(m) <= pow256(n),
    decreases n,
{
    if m < n {
        lemma_pow256_increases(m, (n - 1) as nat);
        lemma_pow256_positive((n - 1) as nat);
    }
}

/// Eight bytes hold the numbers below two to the power 64.
pub proof fn lemma_pow256_of_eight()
    ensures
        pow256(8) == 0x1_0000_0000_0000_0000,
{
    reveal_with_fuel(pow256, 9);
}

/// The reading of a pattern one byte longer.
pub proof fn lemma_le_value_push(b: Seq<u8>, x: u8)
    ensures
        le_value(b.push(x)) == le_value(b) + (x as nat) * pow256(b.len()),
{
    assert(b.push(x).drop_last() =~= b);
}

/// The reading of a prefix one byte longer.
pub proof fn lemma_le_value_take(b: Seq<u8>, i: int)
    requires
        0 <= i < b.len(),
    ensures
        le_value(b.take(i + 1)) == le_value(b.take(i)) + (b[i] as nat) * pow256(i as nat),
{
    assert(b.take(i + 1).drop_last() =~= b.take(i));
}

/// A pattern of `n` bytes stands for a number below `pow256(n)`.
pub proof fn lemma_le_value_bound(b: Seq<u8>)
    ensures
        le_value(b) < pow256(b.len()),
    decreases b.len(),
{
    if b.len() > 0 {
        lemma_le_value_bound(b.drop_last());
        let p = pow256((b.len() - 1) as nat);
        let x = b.last() as nat;
        assert(x * p + p <= 256 * p) by (nonlinear_arith)
            requires
                x <= 255,
        ;
    }
}

/// Two patterns of one length that stand for the same number are the same.
pub proof fn lemma_le_value_injective(a: Seq<u8>, b: Seq<u8>)
    requires
        a.len() == b.len(),
        le_value(a) == le_value(b),
    ensures
        a == b,
    decreases a.len(),
{
    if a.len() == 0 {
        assert(a =~= b);
    } else {
        let p = pow256((a.len() - 1) as nat);
        let x = a.last() as int;
        let y = b.last() as int;
        lemma_le_value_bound(a.drop_last());
        lemma_le_value_bound(b.drop_last());
        assert(x == y) by (nonlinear_arith)
            requires
                le_value(a.drop_last()) + x * p == le_value(b.drop_last()) + y * p,
                le_value(a.drop_last()) < p,
                le_value(b.drop_last()) < p,
        ;
        lemma_le_value_injective(a.drop_last(), b.drop_last());
        assert(a =~= a.drop_last().push(a.last()));
        assert(b =~= b.drop_last().push(b.last()));
    }
}

/// The pattern of a number stands for that number modulo `pow256(n)`.
pub proof fn lemma_value_of_pattern(v: nat, n: nat)
    ensures
        le_pattern(v, n).len() == n,
        le_value(le_pattern(v, n)) == v % pow256(n),
    decreases n,
{
    lemma_pow256_positive(n);
    if n == 0 {
        assert(v % 1 == 0);
    } else {
        let m = (n - 1) as nat;
        let p = pow256(m);
        lemma_pow256_positive(m);
        lemma_value_of_pattern(v, m);
        assert(le_pattern(v, n).drop_last() =~= le_pattern(v, m));
        assert(le_pattern(v, n).last() == ((v / p) % 256) as u8);
        lemma_mod_breakdown(v as int, p as int, 256);
        assert(p * 256 == pow256(n)) by (nonlinear_arith)
            requires
                pow256(n) == 256 * p,
        ;
        assert(((v / p) % 256) * p == p * ((v / p) % 256)) by (nonlinear_arith);
    }
}

/// A pattern is the pattern of the number that it stands for.
pub proof fn lemma_pattern_of_value(b: Seq<u8>)
    ensures
        le_pattern(le_value(b), b.len()) == b,
{
    lemma_value_of_pattern(le_value(b), b.len());
    lemma_le_value_bound(b);
    lemma_small_mod(le_value(b), pow256(b.len()));
    lemma_le_value_injective(le_pattern(le_value(b), b.len()), b);
}

/// A pattern of `n` bytes that stands for `v` modulo `pow256(n)` is the
/// pattern of `v`.
pub proof fn lemma_pattern_unique(b: Seq<u8>, v: nat)
    requires
        le_value(b) == v % pow256(b.len()),
    ensures
        b == le_pattern(v, b.len()),
{
    lemma_value_of_pattern(v, b.len());
    lemma_le_value_injective(b, le_pattern(v, b.len()));
}

/// Numbers that agree modulo `pow256(n)` have the same pattern of `n` bytes.
pub proof fn lemma_pattern_congruent(v: nat, w: nat, n: nat)
    requires
        v % pow256(n) == w % pow256(n),
    ensures
        le_pattern(v, n) == le_pattern(w, n),
{
    lemma_value_of_pattern(v, n);
    lemma_value_of_pattern(w, n);
    lemma_le_value_injective(le_pattern(v, n), le_pattern(w, n));
}

/// A pattern whose bytes are all zero stands for zero.
pub proof fn lemma_zero_value(n: nat)
    ensures
        le_value(filled(0, n)) == 0,
    decreases n,
{
    if n > 0 {
        lemma_zero_value((n - 1) as nat);
        assert(filled(0, n).drop_last() =~= filled(0, (n - 1) as nat));
        assert(filled(0, n).last() == 0);
        assert(0 * pow256((n - 1) as nat) == 0);
    }
}

/// Where two patterns agree above a byte and differ in it, that byte decides
/// which stands for the smaller number.
pub proof fn lemma_le_value_decided_at(a: Seq<u8>, b: Seq<u8>, k: int)
    requires
        a.len() == b.len(),
        0 <= k < a.len(),
        forall|j: int| k < j < a.len() ==> a[j] == b[j],
        a[k] < b[k],
    ensures
        le_value(a) < le_value(b),
    decreases a.len(),
{
    let p = pow256((a.len() - 1) as nat);
    if k == a.len() - 1 {
        lemma_le_value_bound(a.drop_last());
        let x = a.last() as nat;
        let y = b.last() as nat;
        assert(x * p + p <= y * p) by (nonlinear_arith)
            requires
                x < y,
        ;
    } else {
        lemma_le_value_decided_at(a.drop_last(), b.drop_last(), k);
    }
}

/// A pattern is below half of `pow256` of its length exactly when its last
/// byte is below 128.
pub proof fn lemma_sign_in_last_byte(b: Seq<u8>)
    requires
        b.len() > 0,
    ensures
        (2 * le_value(b) >= pow256(b.len())) == (b.last() >= 128),
{
    let p = pow256((b.len() - 1) as nat);
    let x = b.last() as nat;
    lemma_le_value_bound(b.drop_last());
    if x >= 128 {
        assert(2 * (x * p) >= 256 * p) by (nonlinear_arith)
            requires
                x >= 128,
        ;
    } else {
        assert(2 * (x * p) + 2 * p <= 256 * p) by (nonlinear_arith)
            requires
                x <= 127,
        ;
    }
}


/// A copy of a pattern.
pub fn copy_of(a: &[u8]) -> (r: Vec<u8>)
    ensures
        r@ == a@,
{
    let n: usize = a.len();
    let mut out: Vec<u8> = Vec::with_capacity(n);
    let mut i: usize = 0;
    while i < n
        invariant
            n == a@.len(),
            i <= n,
            out@ == a@.take(i as int),
        decreases n - i,
    {
        out.push(a[i]);
        i += 1;
        assert(out@ =~= a@.take(i as int));
    }
    assert(a@.take(n as int) =~= a@);
    out
}

/// Whether two patterns are the same, byte for byte.
pub fn same_bytes(a: &[u8], b: &[u8]) -> (r: bool)
    ensures
        r == (a@ == b@),
{
    let n: usize = a.len();
    if b.len() != n {
        return false;
    }
    let mut i: usize = 0;
    while i < n
        invariant
            n == a@.len(),
            n == b@.len(),
            i <= n,
            a@.take(i as int) == b@.take(i as int),
        decreases n - i,
    {
        if a[i] != b[i] {
            return false;
        }
        i += 1;
        assert(a@.take(i as int) =~= a@.take(i - 1).push(a@[i - 1]));
        assert(b@.take(i as int) =~= b@.take(i - 1).push(b@[i - 1]));
    }
    assert(a@.take(n as int) =~= a@);
    assert(b@.take(n as int) =~= b@);
    true
}

/// The sum of two patterns of one width, computed byte by byte with a carry.
pub fn sum_bytes(a: &[u8], b: &[u8]) -> (r: Vec<u8>)
    requires
        a@.len() == b@.len(),
    ensures
        r@ == wrapping_sum(a@, b@),
{
    let n: usize = a.len();
    let mut out: Vec<u8> = Vec::with_capacity(n);
    let mut carry: u16 = 0;
    let mut i: usize = 0;
    while i < n
        invariant
            n == a@.len(),
            n == b@.len(),
            i <= n,
            out@.len() == i,
            carry <= 1,
            le_value(a@.take(i as int)) + le_value(b@.take(i as int)) == le_value(out@) + carry
                * pow256(i as nat),
        decreases n - i,
    {
        let t: u16 = a[i] as u16 + b[i] as u16 + carry;
        let x: u8 = (t % 256) as u8;
        let next: u16 = t / 256;
        proof {
            lemma_le_value_take(a@, i as int);
            lemma_le_value_take(b@, i as int);
            lemma_le_value_push(out@, x);
            let p = pow256(i as nat);
            assert(pow256((i + 1) as nat) == 256 * p);
            let ai = a@[i as int] as nat;
            let bi = b@[i as int] as nat;
            assert(ai * p + bi * p + carry * p == (x as nat) * p + next * (256 * p))
                by (nonlinear_arith)
                requires
                    ai + bi + carry == x + 256 * next,
            ;
        }
        out.push(x);
        carry = next;
        i += 1;
    }
    proof {
        assert(a@.take(n as int) =~= a@);
        assert(b@.take(n as int) =~= b@);
        lemma_le_value_bound(out@);
        let p = pow256(n as nat);
        assert(carry * p == p * carry) by (nonlinear_arith);
        lemma_fundamental_div_mod_converse(
            (le_value(a@) + le_value(b@)) as int,
            p as int,
            carry as int,
            le_value(out@) as int,
        );
        lemma_pattern_unique(out@, le_value(a@) + le_value(b@));
    }
    out
}

/// The difference of two patterns of one width, computed byte by byte with a
/// borrow.
pub fn difference_bytes(a: &[u8], b: &[u8]) -> (r: Vec<u8>)
    requires
        a@.len() == b@.len(),
    ensures
        r@ == wrapping_difference(a@, b@),
{
    let n: usize = a.len();
    let mut out: Vec<u8> = Vec::with_capacity(n);
    let mut borrow: i16 = 0;
    let mut i: usize = 0;
    while i < n
        invariant
            n == a@.len(),
            n == b@.len(),
            i <= n,
            out@.len() == i,
            0 <= borrow <= 1,
            le_value(a@.take(i as int)) + borrow * pow256(i as nat) == le_value(b@.take(i as int))
                + le_value(out@),
        decreases n - i,
    {
        let t: i16 = a[i] as i16 - b[i] as i16 - borrow;
        let next: i16 = if t < 0 {
            1
        } else {
            0
        };
        let x: u8 = (t + 256 * next) as u8;
        proof {
            lemma_le_value_take(a@, i as int);
            lemma_le_value_take(b@, i as int);
            lemma_le_value_push(out@, x);
            let p = pow256(i as nat);
            assert(pow256((i + 1) as nat) == 256 * p);
            let ai = a@[i as int] as nat;
            let bi = b@[i as int] as nat;
            assert(ai * p + next * (256 * p) == bi * p + (x as nat) * p + borrow * p)
                by (nonlinear_arith)
                requires
                    ai - bi - borrow == x - 256 * next,
            ;
        }
        out.push(x);
        borrow = next;
        i += 1;
    }
    proof {
        assert(a@.take(n as int) =~= a@);
        assert(b@.take(n as int) =~= b@);
        lemma_le_value_bound(out@);
        lemma_le_value_bound(b@);
        let p = pow256(n as nat);
        assert((1 - borrow) * p == p - borrow * p) by (nonlinear_arith);
        lemma_fundamental_div_mod_converse(
            le_value(a@) + p - le_value(b@),
            p as int,
            1 - borrow,
            le_value(out@) as int,
        );
        lemma_pattern_unique(out@, (le_value(a@) + p - le_value(b@)) as nat);
    }
    out
}

/// The bitwise conjunction of two patterns of one width.
pub fn and_bytes(a: &[u8], b: &[u8]) -> (r: Vec<u8>)
    requires
        a@.len() == b@.len(),
    ensures
        r@ == bitwise_and(a@, b@),
{
    let n: usize = a.len();
    let mut out: Vec<u8> = Vec::with_capacity(n);
    let mut i: usize = 0;
    while i < n
        invariant
            n == a@.len(),
            n == b@.len(),
            i <= n,
            out@.len() == i,
            forall|j: int| 0 <= j < i ==> out@[j] == a@[j] & b@[j],
        decreases n - i,
    {
        out.push(a[i] & b[i]);
        i += 1;
    }
    assert(out@ =~= bitwise_and(a@, b@));
    out
}

/// The bitwise disjunction of two patterns of one width.
pub fn or_bytes(a: &[u8], b: &[u8]) -> (r: Vec<u8>)
    requires
        a@.len() == b@.len(),
    ensures
        r@ == bitwise_or(a@, b@),
{
    let n: usize = a.len();
    let mut out: Vec<u8> = Vec::with_capacity(n);
    let mut i: usize = 0;
    while i < n
        invariant
            n == a@.len(),
            n == b@.len(),
            i <= n,
            out@.len() == i,
            forall|j: int| 0 <= j < i ==> out@[j] == a@[j] | b@[j],
        decreases n - i,
    {
        out.push(a[i] | b[i]);
        i += 1;
    }
    assert(out@ =~= bitwise_or(a@, b@));
    out
}

/// The bitwise exclusive disjunction of two patterns of one width.
pub fn xor_bytes(a: &[u8], b: &[u8]) -> (r: Vec<u8>)
    requires
        a@.len() == b@.len(),
    ensures
        r@ == bitwise_xor(a@, b@),
{
    let n: usize = a.len();
    let mut out: Vec<u8> = Vec::with_capacity(n);
    let mut i: usize = 0;
    while i < n
        invariant
            n == a@.len(),
            n == b@.len(),
            i <= n,
            out@.len() == i,
            forall|j: int| 0 <= j < i ==> out@[j] == a@[j] ^ b@[j],
        decreases n - i,
    {
        out.push(a[i] ^ b[i]);
        i += 1;
    }
    assert(out@ =~= bitwise_xor(a@, b@));
    out
}

/// Whether the first of two patterns of one width stands for the smaller
/// unsigned number. The bytes are compared from the most significant down.
pub fn less_unsigned(a: &[u8], b: &[u8]) -> (r: bool)
    requires
        a@.len() == b@.len(),
    ensures
        r == (le_value(a@) < le_value(b@)),
{
    let n: usize = a.len();
    let mut i: usize = n;
    while i > 0
        invariant
            n == a@.len(),
            n == b@.len(),
            i <= n,
            forall|j: int| i <= j < n ==> a@[j] == b@[j],
        decreases i,
    {
        i -= 1;
        if a[i] != b[i] {
            proof {
                if a@[i as int] < b@[i as int] {
                    lemma_le_value_decided_at(a@, b@, i as int);
                } else {
                    lemma_le_value_decided_at(b@, a@, i as int);
                }
            }
            return a[i] < b[i];
        }
    }
    assert(a@ =~= b@);
    false
}

/// Whether the first of two patterns of one width stands for the smaller
/// number in two's complement.
pub fn less_signed(a: &[u8], b: &[u8]) -> (r: bool)
    requires
        a@.len() == b@.len(),
    ensures
        r == (signed_value(a@) < signed_value(b@)),
{
    let n: usize = a.len();
    if n == 0 {
        assert(a@ =~= b@);
        return false;
    }
    let a_negative: bool = a[n - 1] >= 128;
    let b_negative: bool = b[n - 1] >= 128;
    proof {
        lemma_sign_in_last_byte(a@);
        lemma_sign_in_last_byte(b@);
        lemma_le_value_bound(a@);
        lemma_le_value_bound(b@);
    }
    if a_negative != b_negative {
        a_negative
    } else {
        less_unsigned(a, b)
    }
}

} // verus!
