//! A library for tightly packing and unpacking data at bit granularity.
//!
//! Values are stored most-significant-bit first, at arbitrary bit offsets
//! within a byte buffer; successive fields may share bytes.  The `Packed`
//! trait gives every supported type a fixed bit width together with `pack`
//! and `unpack` operations, and the contracts state exactly which bits of
//! the buffer each operation reads or writes.
//!
//! The single precondition, that the buffer holds at least
//! `offset + width` bits, is enforced statically: it is a `requires` clause
//! that every verified caller proves, so the operations themselves make no
//! runtime check and cannot fail.  Unverified callers must check it
//! themselves before calling.

pub mod bits;
pub mod codec;
pub mod composite;
pub mod laws;

pub use codec::Packed;
