//! Digital pin capabilities consumed by the driver.
//!
//! The controller is polymorphic over any provider of a "digital output pin":
//! a fallible set-high/set-low switch. So that contracts can talk about what
//! actually reached the hardware, every pin carries a specification-level
//! history of the levels it was successfully driven to, newest last.

use vstd::prelude::*;

verus! {

/// A fallible digital output pin.
///
/// `levels()` is the history of levels the pin has been driven to. A
/// successful `set_high`/`set_low` appends to it; after a failure the
/// electrical state of the line is unknown and nothing is promised.
pub trait OutputPin: Sized {
    /// The error produced when the pin cannot be driven.
    type PinError;

    /// History of levels successfully driven onto the line, oldest first.
    ///
    /// Verified providers override this with their real history; the
    /// default (no history) leaves the contracts below unprovable, so an
    /// implementation that wants to be verified must override it.
    open spec fn levels(&self) -> Seq<bool> {
        Seq::empty()
    }

    /// Drive the line high.
    fn set_high(&mut self) -> (r: Result<(), Self::PinError>)
        ensures
            r is Ok ==> final(self).levels() == old(self).levels().push(true),
            r is Err ==> final(self).levels() == old(self).levels(),
    ;

    /// Drive the line low.
    fn set_low(&mut self) -> (r: Result<(), Self::PinError>)
        ensures
            r is Ok ==> final(self).levels() == old(self).levels().push(false),
            r is Err ==> final(self).levels() == old(self).levels(),
    ;
}

/// A fallible digital input pin.
///
/// The driver itself never reads (the PCD8544 bus is one-way); this
/// capability exists for serial adapters that insist on an input line.
pub trait InputPin: Sized {
    /// The error produced when the pin cannot be read.
    type PinError;

    /// Whether the line reads high.
    fn is_high(&self) -> (r: Result<bool, Self::PinError>);

    /// Whether the line reads low.
    fn is_low(&self) -> (r: Result<bool, Self::PinError>);
}

} // verus!
