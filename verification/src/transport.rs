//! The serial transport capability.
//!
//! The PCD8544 accepts a one-way, byte-oriented, most-significant-bit-first
//! stream. The controller core is polymorphic over any provider of such a
//! stream: a native synchronous serial peripheral, the bit-banged
//! implementation in [`crate::bitbang`], or the in-memory recorder in
//! [`crate::dummypins`]. The `sent()` history is what every contract in the
//! crate is ultimately stated against.

use vstd::prelude::*;

verus! {

/// A fallible one-way byte stream towards the chip.
///
/// `sent()` is the history of bytes whose transmission completed. A byte
/// that fails partway (for a bit-banged link, with only some of its eight
/// bits clocked out) is not appended: the caller learns of the failure, not
/// of how many bits went out.
pub trait SerialLink: Sized {
    /// The error produced when the line cannot be driven.
    type LinkError;

    /// History of completely transmitted bytes, oldest first.
    ///
    /// Verified providers override this with their real history; the
    /// default (no history) leaves the contracts below unprovable, so an
    /// implementation that wants to be verified must override it.
    open spec fn sent(&self) -> Seq<u8> {
        Seq::empty()
    }

    /// Transmit one byte, most significant bit first.
    fn write_byte(&mut self, byte: u8) -> (r: Result<(), Self::LinkError>)
        ensures
            r is Ok ==> final(self).sent() == old(self).sent().push(byte),
            r is Err ==> final(self).sent() == old(self).sent(),
    ;

    /// Transmit a run of bytes, in order, each most significant bit first.
    ///
    /// On failure some prefix of the run has been transmitted.
    fn write(&mut self, bytes: &[u8]) -> (r: Result<(), Self::LinkError>)
        ensures
            r is Ok ==> final(self).sent() == old(self).sent() + bytes@,
            r is Err ==> exists|k: int|
                0 <= k <= bytes@.len() && final(self).sent() == old(self).sent()
                    + bytes@.subrange(0, k),
    ;
}

/// A microsecond busy-wait capability for bit-banged links on fast clocks.
///
/// Timing is not modelled by this crate; no contract is attached.
pub trait DelayUs: Sized {
    /// Busy-wait for the given number of microseconds.
    fn delay_us(&mut self, us: u8);
}

/// A no-op delay, for targets slow enough that the bit-banged clock needs no
/// stretching.
#[derive(Clone, Copy)]
pub struct NoDelay {}

impl DelayUs for NoDelay {
    fn delay_us(&mut self, _us: u8) {
    }
}

} // verus!
