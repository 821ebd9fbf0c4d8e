//! Atomic operations on plain data of any size.
//!
//! A value of a plain-data type is a pattern of bytes at a location in memory.
//! This library says what each atomic operation on such a location returns and
//! what it leaves behind: load, store, swap, compare-exchange, addition and
//! subtraction that wrap around, the bitwise operations, and minimum and
//! maximum, signed and unsigned. It decides whether the platform serves a
//! location by a native primitive, and emulates the operation under a
//! spinlock where it does not. Both ways give the same result.
//!
//! The operations here work on locations that the caller hands over for the
//! length of the call, one operation after another. Integers are read from a
//! pattern least significant byte first.

pub mod capability;
pub mod fallback;
pub mod laws;
pub mod location;
pub mod native;
pub mod nightly;
pub mod ops;
pub mod order;
pub mod pattern;
pub mod stable;
