//! What the platform can do natively, and which locations that serves.
//!
//! A platform is described by one flag for each native primitive: unsigned
//! and signed, of 1, 2, 4 and 8 bytes and of the width of a pointer, and one
//! more for the primitives that find the smaller or the larger of two
//! numbers. A location is served natively if there is a primitive of exactly
//! its size and its alignment is at least that size. Every other location is
//! served by emulation.

use vstd::prelude::*;
use vstd::layout::size_of;
use crate::location::Location;
use crate::native::MAX_WIDTH;

verus! {

/// The native primitives that a platform has.
#[derive(Clone, Copy, Debug)]
pub struct Capabilities {
    pub has_atomic_u8: bool,
    pub has_atomic_u16: bool,
    pub has_atomic_u32: bool,
    pub has_atomic_u64: bool,
    pub has_atomic_usize: bool,
    pub has_atomic_i8: bool,
    pub has_atomic_i16: bool,
    pub has_atomic_i32: bool,
    pub has_atomic_i64: bool,
    pub has_atomic_isize: bool,
    pub has_fetch_min: bool,
}

/// Whether the value of a type of this size and alignment can be kept in a
/// cell as wide as a pointer.
pub open spec fn pointer_sized(size: nat, align: nat) -> bool {
    size == size_of::<usize>() && align >= size
}

/// A pointer has four or eight bytes.
pub proof fn lemma_pointer_width()
    ensures
        size_of::<usize>() == 4 || size_of::<usize>() == 8,
{
    broadcast use vstd::layout::layout_of_primitives;

    assert(usize::BITS == 32 || usize::BITS == 64);
}

/// The size of a pointer in bytes.
pub fn pointer_width() -> (r: usize)
    ensures
        r == size_of::<usize>(),
        r == 4 || r == 8,
{
    proof {
        lemma_pointer_width();
    }
    core::mem::size_of::<usize>()
}

/// Whether the value of a type of this size and alignment can be kept in a
/// cell as wide as a pointer.
pub fn is_pointer_sized(size: usize, align: usize) -> (r: bool)
    ensures
        r == pointer_sized(size as nat, align as nat),
{
    size == pointer_width() && align >= size
}

impl Capabilities {
    /// Whether there is an unsigned primitive of exactly `size` bytes.
    pub open spec fn serves_unsigned(&self, size: nat) -> bool {
        ||| size == 1 && self.has_atomic_u8
        ||| size == 2 && self.has_atomic_u16
        ||| size == 4 && self.has_atomic_u32
        ||| size == 8 && self.has_atomic_u64
        ||| size == size_of::<usize>() && self.has_atomic_usize
    }

    /// Whether there is a signed primitive of exactly `size` bytes.
    pub open spec fn serves_signed(&self, size: nat) -> bool {
        ||| size == 1 && self.has_atomic_i8
        ||| size == 2 && self.has_atomic_i16
        ||| size == 4 && self.has_atomic_i32
        ||| size == 8 && self.has_atomic_i64
        ||| size == size_of::<usize>() && self.has_atomic_isize
    }

    /// Whether there is an unsigned primitive of exactly `size` bytes among
    /// those of 1, 2, 4 and 8 bytes.
    pub open spec fn serves_fixed(&self, size: nat) -> bool {
        ||| size == 1 && self.has_atomic_u8
        ||| size == 2 && self.has_atomic_u16
        ||| size == 4 && self.has_atomic_u32
        ||| size == 8 && self.has_atomic_u64
    }

    /// Whether a value of this size and alignment is served natively.
    pub open spec fn lock_free(&self, size: nat, align: nat) -> bool {
        self.serves_unsigned(size) && align >= size
    }

    /// Whether a value of this size and alignment is served natively where it
    /// is read in two's complement.
    pub open spec fn lock_free_signed(&self, size: nat, align: nat) -> bool {
        self.serves_signed(size) && align >= size
    }

    /// Whether a value of this size and alignment is served natively by a
    /// primitive of 1, 2, 4 or 8 bytes.
    pub open spec fn lock_free_fixed(&self, size: nat, align: nat) -> bool {
        self.serves_fixed(size) && align >= size
    }

    /// Whether the location is served natively.
    pub open spec fn native_for(&self, dst: &Location) -> bool {
        self.lock_free(dst@.len(), dst.spec_align() as nat)
    }

    /// Whether the location is served natively by the primitives that find
    /// the smaller or the larger of two unsigned numbers.
    pub open spec fn native_unsigned_min_for(&self, dst: &Location) -> bool {
        self.has_fetch_min && self.lock_free(dst@.len(), dst.spec_align() as nat)
    }

    /// Whether the location is served natively by the primitives that find
    /// the smaller or the larger of two numbers in two's complement.
    pub open spec fn native_signed_min_for(&self, dst: &Location) -> bool {
        self.has_fetch_min && self.lock_free_signed(dst@.len(), dst.spec_align() as nat)
    }

    /// Whether the location is served natively by a primitive of 1, 2, 4 or 8
    /// bytes.
    pub open spec fn fixed_native_for(&self, dst: &Location) -> bool {
        self.lock_free_fixed(dst@.len(), dst.spec_align() as nat)
    }

    /// A platform without native primitives: every location is emulated.
    pub fn none() -> (r: Capabilities)
        ensures
            r == (Capabilities {
                has_atomic_u8: false,
                has_atomic_u16: false,
                has_atomic_u32: false,
                has_atomic_u64: false,
                has_atomic_usize: false,
                has_atomic_i8: false,
                has_atomic_i16: false,
                has_atomic_i32: false,
                has_atomic_i64: false,
                has_atomic_isize: false,
                has_fetch_min: false,
            }),
            forall|size: nat, align: nat| !r.lock_free(size, align),
            forall|size: nat, align: nat| !r.lock_free_signed(size, align),
            forall|size: nat, align: nat| !r.lock_free_fixed(size, align),
    {
        Capabilities {
            has_atomic_u8: false,
            has_atomic_u16: false,
            has_atomic_u32: false,
            has_atomic_u64: false,
            has_atomic_usize: false,
            has_atomic_i8: false,
            has_atomic_i16: false,
            has_atomic_i32: false,
            has_atomic_i64: false,
            has_atomic_isize: false,
            has_fetch_min: false,
        }
    }

    /// A platform with every native primitive.
    pub fn all() -> (r: Capabilities)
        ensures
            r == (Capabilities {
                has_atomic_u8: true,
                has_atomic_u16: true,
                has_atomic_u32: true,
                has_atomic_u64: true,
                has_atomic_usize: true,
                has_atomic_i8: true,
                has_atomic_i16: true,
                has_atomic_i32: true,
                has_atomic_i64: true,
                has_atomic_isize: true,
                has_fetch_min: true,
            }),
            forall|size: nat, align: nat|
                r.lock_free(size, align) <==> (size == 1 || size == 2 || size == 4 || size == 8)
                    && align >= size,
            forall|size: nat, align: nat|
                r.lock_free_signed(size, align) <==> r.lock_free(size, align),
            forall|size: nat, align: nat|
                r.lock_free_fixed(size, align) <==> r.lock_free(size, align),
    {
        proof {
            lemma_pointer_width();
        }
        Capabilities {
            has_atomic_u8: true,
            has_atomic_u16: true,
            has_atomic_u32: true,
            has_atomic_u64: true,
            has_atomic_usize: true,
            has_atomic_i8: true,
            has_atomic_i16: true,
            has_atomic_i32: true,
            has_atomic_i64: true,
            has_atomic_isize: true,
            has_fetch_min: true,
        }
    }

    /// Whether a value of this size and alignment is served natively.
    pub fn is_lock_free(&self, size: usize, align: usize) -> (r: bool)
        ensures
            r == self.lock_free(size as nat, align as nat),
            r ==> size <= MAX_WIDTH,
    {
        let fits = (self.has_atomic_u8 && size == 1) || (self.has_atomic_u16 && size == 2) || (
        self.has_atomic_u32 && size == 4) || (self.has_atomic_u64 && size == 8) || (
        self.has_atomic_usize && size == pointer_width());
        fits && align >= size
    }

    /// Whether a value of this size and alignment is served natively where it
    /// is read in two's complement.
    pub fn is_lock_free_signed(&self, size: usize, align: usize) -> (r: bool)
        ensures
            r == self.lock_free_signed(size as nat, align as nat),
            r ==> size <= MAX_WIDTH,
    {
        let fits = (self.has_atomic_i8 && size == 1) || (self.has_atomic_i16 && size == 2) || (
        self.has_atomic_i32 && size == 4) || (self.has_atomic_i64 && size == 8) || (
        self.has_atomic_isize && size == pointer_width());
        fits && align >= size
    }

    /// Whether a value of this size and alignment is served natively by a
    /// primitive of 1, 2, 4 or 8 bytes.
    pub fn is_lock_free_fixed(&self, size: usize, align: usize) -> (r: bool)
        ensures
            r == self.lock_free_fixed(size as nat, align as nat),
            r ==> size <= MAX_WIDTH,
    {
        let fits = (self.has_atomic_u8 && size == 1) || (self.has_atomic_u16 && size == 2) || (
        self.has_atomic_u32 && size == 4) || (self.has_atomic_u64 && size == 8);
        fits && align >= size
    }

    /// Whether the location is served natively.
    pub fn is_native_for(&self, dst: &Location) -> (r: bool)
        ensures
            r == self.native_for(dst),
            r ==> dst@.len() <= MAX_WIDTH,
    {
        self.is_lock_free(dst.size(), dst.align())
    }

    /// Whether the location is served natively by the primitives that find
    /// the smaller or the larger of two unsigned numbers.
    pub fn is_native_unsigned_min_for(&self, dst: &Location) -> (r: bool)
        ensures
            r == self.native_unsigned_min_for(dst),
            r ==> dst@.len() <= MAX_WIDTH,
    {
        self.has_fetch_min && self.is_lock_free(dst.size(), dst.align())
    }

    /// Whether the location is served natively by the primitives that find
    /// the smaller or the larger of two numbers in two's complement.
    pub fn is_native_signed_min_for(&self, dst: &Location) -> (r: bool)
        ensures
            r == self.native_signed_min_for(dst),
            r ==> dst@.len() <= MAX_WIDTH,
    {
        self.has_fetch_min && self.is_lock_free_signed(dst.size(), dst.align())
    }

    /// Whether the location is served natively by a primitive of 1, 2, 4 or 8
    /// bytes.
    pub fn is_fixed_native_for(&self, dst: &Location) -> (r: bool)
        ensures
            r == self.fixed_native_for(dst),
            r ==> dst@.len() <= MAX_WIDTH,
    {
        self.is_lock_free_fixed(dst.size(), dst.align())
    }
}

/// Whether the location can be kept in a cell as wide as a pointer.
pub open spec fn pointer_native_for(dst: &Location) -> bool {
    pointer_sized(dst@.len(), dst.spec_align() as nat)
}

/// Whether the location can be kept in a cell as wide as a pointer.
pub fn is_pointer_native_for(dst: &Location) -> (r: bool)
    ensures
        r == pointer_native_for(dst),
        r ==> dst@.len() <= MAX_WIDTH,
{
    is_pointer_sized(dst.size(), dst.align())
}

} // verus!
