//! Stand-in pins and transports.
//!
//! `DummyOutputPin` and `DummyInputPin` satisfy the pin capabilities while
//! touching no hardware: useful when a signal (say, the backlight) is managed
//! elsewhere but a constructor still wants a pin. `RecordingPin` and
//! `RecordingLink` additionally keep their history in ordinary memory, so a
//! test can read back exactly what the driver put on each line.

use vstd::prelude::*;

use crate::pins::{InputPin, OutputPin};
use crate::transport::SerialLink;

verus! {

/// An output pin that accepts every transition and does nothing.
#[derive(Clone, Copy)]
pub struct DummyOutputPin {
    history: Ghost<Seq<bool>>,
}

impl DummyOutputPin {
    /// A fresh dummy pin with an empty level history.
    pub fn new() -> (p: DummyOutputPin)
        ensures
            p.levels() == Seq::<bool>::empty(),
    {
        DummyOutputPin { history: Ghost(Seq::empty()) }
    }
}

impl OutputPin for DummyOutputPin {
    type PinError = ();

    closed spec fn levels(&self) -> Seq<bool> {
        self.history@
    }

    fn set_high(&mut self) -> (r: Result<(), ()>)
        ensures
            r is Ok,
    {
        self.history = Ghost(self.history@.push(true));
        Ok(())
    }

    fn set_low(&mut self) -> (r: Result<(), ()>)
        ensures
            r is Ok,
    {
        self.history = Ghost(self.history@.push(false));
        Ok(())
    }
}

/// An input pin that always reads low.
///
/// Hand this to serial adapters that demand an input line the PCD8544 does
/// not have.
#[derive(Clone, Copy)]
pub struct DummyInputPin;

impl InputPin for DummyInputPin {
    type PinError = ();

    fn is_high(&self) -> (r: Result<bool, ()>)
        ensures
            r == Result::<bool, ()>::Ok(false),
    {
        Ok(false)
    }

    fn is_low(&self) -> (r: Result<bool, ()>)
        ensures
            r == Result::<bool, ()>::Ok(true),
    {
        Ok(true)
    }
}

/// An output pin that stores every level it is driven to.
pub struct RecordingPin {
    states: Vec<bool>,
}

impl RecordingPin {
    /// A fresh recording pin with an empty level history.
    pub fn new() -> (p: RecordingPin)
        ensures
            p.levels() == Seq::<bool>::empty(),
    {
        RecordingPin { states: Vec::new() }
    }

    /// The recorded levels, oldest first.
    pub fn states(&self) -> (r: &Vec<bool>)
        ensures
            r@ == self.levels(),
    {
        &self.states
    }
}

impl OutputPin for RecordingPin {
    type PinError = ();

    closed spec fn levels(&self) -> Seq<bool> {
        self.states@
    }

    fn set_high(&mut self) -> (r: Result<(), ()>)
        ensures
            r is Ok,
    {
        self.states.push(true);
        Ok(())
    }

    fn set_low(&mut self) -> (r: Result<(), ()>)
        ensures
            r is Ok,
    {
        self.states.push(false);
        Ok(())
    }
}

/// A serial transport that stores every byte instead of transmitting it.
pub struct RecordingLink {
    bytes: Vec<u8>,
}

impl RecordingLink {
    /// A fresh recording transport with an empty byte log.
    pub fn new() -> (t: RecordingLink)
        ensures
            t.sent() == Seq::<u8>::empty(),
    {
        RecordingLink { bytes: Vec::new() }
    }

    /// The recorded bytes, oldest first.
    pub fn bytes(&self) -> (r: &Vec<u8>)
        ensures
            r@ == self.sent(),
    {
        &self.bytes
    }
}

impl SerialLink for RecordingLink {
    type LinkError = ();

    closed spec fn sent(&self) -> Seq<u8> {
        self.bytes@
    }

    fn write_byte(&mut self, byte: u8) -> (r: Result<(), ()>)
        ensures
            r is Ok,
    {
        self.bytes.push(byte);
        Ok(())
    }

    fn write(&mut self, bytes: &[u8]) -> (r: Result<(), ()>)
        ensures
            r is Ok,
    {
        let ghost start = self.bytes@;
        let mut i: usize = 0;
        while i < bytes.len()
            invariant
                i <= bytes@.len(),
                self.bytes@ == start + bytes@.subrange(0, i as int),
            decreases bytes@.len() - i,
        {
            self.bytes.push(bytes[i]);
            i = i + 1;
        }
        proof {
            assert(bytes@.subrange(0, bytes@.len() as int) =~= bytes@);
        }
        Ok(())
    }
}

} // verus!
