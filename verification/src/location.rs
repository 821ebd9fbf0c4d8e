//! Memory locations.
//!
//! A location is an address together with the alignment and the size of the
//! value kept there, and the bytes of that value. The address is a multiple of
//! the alignment. No operation changes the address, the alignment or the size
//! of a location: every access reads or writes all of its bytes, and no others.

use vstd::prelude::*;
use vstd::layout::{align_of, size_of};
use bytemuck::NoUninit;
use crate::pattern::copy_of;

verus! {

/// A properly aligned place in memory and the bit pattern stored there.
#[derive(Debug)]
pub struct Location {
    addr: usize,
    align: usize,
    bytes: Vec<u8>,
}

impl View for Location {
    type V = Seq<u8>;

    /// The bit pattern stored at the location.
    closed spec fn view(&self) -> Seq<u8> {
        self.bytes@
    }
}

/// The bytes of a plain-data value in the order in which memory holds them,
/// as `bytemuck::bytes_of` gives them. Claimed: there are as many as the size
/// of the type. Which bytes they are depends on the target's byte order and is
/// not claimed.
#[verifier::external_body]
fn bytes_of<T: NoUninit>(value: &T) -> (bytes: Vec<u8>)
    ensures
        bytes@.len() == size_of::<T>(),
{
    bytemuck::bytes_of(value).to_vec()
}

impl Location {
    #[verifier::type_invariant]
    spec fn aligned(self) -> bool {
        self.align > 0 && self.addr % self.align == 0
    }

    /// The address of the location.
    pub closed spec fn spec_addr(&self) -> usize {
        self.addr
    }

    /// The alignment of the value kept at the location.
    pub closed spec fn spec_align(&self) -> usize {
        self.align
    }

    /// Whether two locations are the same place: one address, one alignment
    /// and one size.
    pub open spec fn same_place(&self, other: &Location) -> bool {
        &&& self.spec_addr() == other.spec_addr()
        &&& self.spec_align() == other.spec_align()
        &&& self@.len() == other@.len()
    }

    /// The location at `addr` with alignment `align` that holds `bytes`, if
    /// `addr` is aligned to `align`.
    pub fn new(addr: usize, align: usize, bytes: Vec<u8>) -> (r: Option<Location>)
        ensures
            r is Some <==> align > 0 && addr % align == 0,
            r matches Some(l) ==> l.spec_addr() == addr && l.spec_align() == align && l@
                == bytes@,
    {
        if align > 0 && addr % align == 0 {
            Some(Location { addr, align, bytes })
        } else {
            None
        }
    }

    /// The location at `addr` that holds `value`, with the size and the
    /// alignment of its type, if `addr` is aligned for that type.
    pub fn holding<T: NoUninit>(addr: usize, value: &T) -> (r: Option<Location>)
        ensures
            r is Some <==> (addr as nat) % align_of::<T>() == 0,
            r matches Some(l) ==> l.spec_addr() == addr && l.spec_align() == align_of::<T>()
                && l@.len() == size_of::<T>(),
    {
        broadcast use vstd::layout::align_nonzero;

        let bytes = bytes_of(value);
        Location::new(addr, core::mem::align_of::<T>(), bytes)
    }

    /// The address of the location.
    #[verifier::when_used_as_spec(spec_addr)]
    pub fn addr(&self) -> (r: usize)
        ensures
            r == self.spec_addr(),
    {
        self.addr
    }

    /// The alignment of the value kept at the location. It is not zero, and
    /// the address is a multiple of it.
    #[verifier::when_used_as_spec(spec_align)]
    pub fn align(&self) -> (r: usize)
        ensures
            r == self.spec_align(),
            r > 0,
            self.spec_addr() % r == 0,
    {
        proof {
            use_type_invariant(self);
        }
        self.align
    }

    /// The size in bytes of the value kept at the location.
    pub fn size(&self) -> (r: usize)
        ensures
            r == self@.len(),
    {
        self.bytes.len()
    }

    /// A plain read: a copy of the stored pattern.
    pub fn read(&self) -> (r: Vec<u8>)
        ensures
            r@ == self@,
    {
        copy_of(self.bytes.as_slice())
    }

    /// A plain write: `bytes` becomes the stored pattern.
    pub fn write(&mut self, bytes: &[u8])
        requires
            bytes@.len() == old(self)@.len(),
        ensures
            final(self)@ == bytes@,
            final(self).same_place(old(self)),
    {
        proof {
            use_type_invariant(&*self);
        }
        self.bytes = copy_of(bytes);
    }

    /// A plain read followed by a plain write: `bytes` becomes the stored
    /// pattern, and the pattern stored before is returned.
    pub fn replace(&mut self, bytes: &[u8]) -> (r: Vec<u8>)
        requires
            bytes@.len() == old(self)@.len(),
        ensures
            r@ == old(self)@,
            final(self)@ == bytes@,
            final(self).same_place(old(self)),
    {
        let prior = self.read();
        self.write(bytes);
        prior
    }
}

} // verus!
