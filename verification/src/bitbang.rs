//! Bit-banged serial transport.
//!
//! Turns a pair of output pins (clock and data-in) into a [`SerialLink`]:
//! for every byte, each of its eight bits is put on the data line, most
//! significant first, and the clock is pulsed high then low. The chip
//! samples the data line while the clock is high.
//!
//! Use [`BitBangSpi::new`] on targets slow enough to need no delay between
//! clock edges, and [`BitBangSpi::new_with_delay`] on faster targets.

use vstd::prelude::*;

use crate::pins::OutputPin;
use crate::transport::{DelayUs, NoDelay, SerialLink};

verus! {

/// Whether bit `i` of `byte`, counted from the most significant end, is set.
pub open spec fn bit_at(byte: u8, i: int) -> bool {
    (byte >> ((7 - i) as u32)) & 1 == 1
}

/// The eight bits of `byte` in the order they are put on the data line:
/// most significant first.
pub open spec fn bits_msb(byte: u8) -> Seq<bool> {
    Seq::new(8, |i: int| bit_at(byte, i))
}

/// The level history a clock line gains from `n` high-then-low pulses.
pub open spec fn clock_pulses(n: nat) -> Seq<bool> {
    Seq::new(2 * n, |i: int| i % 2 == 0)
}

/// A bit-banged serial transport over a clock pin and a data pin.
///
/// It owns no chip-select line; framing belongs to the controller core.
pub struct BitBangSpi<CLK, DIN, DELAY> {
    clk: CLK,
    din: DIN,
    delay: DELAY,
    log: Ghost<Seq<u8>>,
}

impl<CLK: OutputPin, DIN: OutputPin, DELAY> BitBangSpi<CLK, DIN, DELAY> {
    /// The level history of the clock line.
    pub closed spec fn clk_levels(&self) -> Seq<bool> {
        self.clk.levels()
    }

    /// The level history of the data line.
    pub closed spec fn din_levels(&self) -> Seq<bool> {
        self.din.levels()
    }

    /// The bytes transmitted so far.
    pub closed spec fn log(&self) -> Seq<u8> {
        self.log@
    }

    /// Borrow the clock pin, for reading back a recording pin.
    pub fn clk_pin(&self) -> (r: &CLK)
        ensures
            r.levels() == self.clk_levels(),
    {
        &self.clk
    }

    /// Borrow the data pin, for reading back a recording pin.
    pub fn din_pin(&self) -> (r: &DIN)
        ensures
            r.levels() == self.din_levels(),
    {
        &self.din
    }
}

impl<CLK, DIN> BitBangSpi<CLK, DIN, NoDelay> where
    CLK: OutputPin,
    DIN: OutputPin<PinError = CLK::PinError>,
 {
    /// Construct a bit-banged transport from a clock pin and a data pin,
    /// driving the clock low as a starting condition.
    ///
    /// If the clock runs above roughly 8 MHz, consider `new_with_delay`.
    pub fn new(clk: CLK, din: DIN) -> (r: Result<
        BitBangSpi<CLK, DIN, NoDelay>,
        CLK::PinError,
    >)
        ensures
            r matches Ok(s) ==> s.log() == Seq::<u8>::empty() && s.clk_levels() == clk.levels().push(
                false,
            ) && s.din_levels() == din.levels(),
    {
        let mut clk = clk;
        match clk.set_low() {
            Ok(()) => {},
            Err(e) => {
                return Err(e);
            },
        }
        Ok(BitBangSpi { clk, din, delay: NoDelay {  }, log: Ghost(Seq::empty()) })
    }
}

impl<CLK, DIN, DELAY> BitBangSpi<CLK, DIN, DELAY> where
    CLK: OutputPin,
    DIN: OutputPin<PinError = CLK::PinError>,
    DELAY: DelayUs,
 {
    /// Construct a bit-banged transport that busy-waits between clock edges,
    /// driving the clock low as a starting condition.
    pub fn new_with_delay(clk: CLK, din: DIN, delay: DELAY) -> (r: Result<
        BitBangSpi<CLK, DIN, DELAY>,
        CLK::PinError,
    >)
        ensures
            r matches Ok(s) ==> s.log() == Seq::<u8>::empty() && s.clk_levels() == clk.levels().push(
                false,
            ) && s.din_levels() == din.levels(),
    {
        let mut clk = clk;
        match clk.set_low() {
            Ok(()) => {},
            Err(e) => {
                return Err(e);
            },
        }
        Ok(BitBangSpi { clk, din, delay, log: Ghost(Seq::empty()) })
    }

    /// Put one bit on the data line and pulse the clock high then low.
    fn write_bit(&mut self, high: bool) -> (r: Result<(), CLK::PinError>)
        ensures
            final(self).log() == old(self).log(),
            r is Ok ==> final(self).din_levels() == old(self).din_levels().push(high)
                && final(self).clk_levels() == old(self).clk_levels().push(true).push(false),
    {
        let bit_result = if high {
            self.din.set_high()
        } else {
            self.din.set_low()
        };
        match bit_result {
            Ok(()) => {},
            Err(e) => {
                return Err(e);
            },
        }
        match self.clk.set_high() {
            Ok(()) => {},
            Err(e) => {
                return Err(e);
            },
        }
        self.delay.delay_us(1);
        match self.clk.set_low() {
            Ok(()) => {},
            Err(e) => {
                return Err(e);
            },
        }
        self.delay.delay_us(1);
        Ok(())
    }
}

impl<CLK, DIN, DELAY> SerialLink for BitBangSpi<CLK, DIN, DELAY> where
    CLK: OutputPin,
    DIN: OutputPin<PinError = CLK::PinError>,
    DELAY: DelayUs,
 {
    type LinkError = CLK::PinError;

    closed spec fn sent(&self) -> Seq<u8> {
        self.log@
    }

    #[verifier::loop_isolation(false)]
    fn write_byte(&mut self, byte: u8) -> (r: Result<(), CLK::PinError>)
        ensures
            r is Ok ==> final(self).din_levels() == old(self).din_levels() + bits_msb(byte)
                && final(self).clk_levels() == old(self).clk_levels() + clock_pulses(8),
    {
        let mut i: usize = 0;
        while i < 8
            invariant
                i <= 8,
                self.log() == old(self).log(),
                self.din_levels() == old(self).din_levels() + bits_msb(byte).subrange(0, i as int),
                self.clk_levels() == old(self).clk_levels() + clock_pulses(8).subrange(
                    0,
                    2 * (i as int),
                ),
            decreases 8 - i,
        {
            let bitpos: u32 = 7 - i as u32;
            let bit = (byte >> bitpos) & 1;
            let ghost din_before = self.din_levels();
            let ghost clk_before = self.clk_levels();
            match self.write_bit(bit == 1) {
                Ok(()) => {},
                Err(e) => {
                    return Err(e);
                },
            }
            proof {
                assert(bit == 1 <==> bit_at(byte, i as int));
                assert(bits_msb(byte).subrange(0, i as int + 1) =~= bits_msb(byte).subrange(
                    0,
                    i as int,
                ).push(bit_at(byte, i as int)));
                assert(clock_pulses(8).subrange(0, 2 * (i as int + 1)) =~= clock_pulses(
                    8,
                ).subrange(0, 2 * i as int).push(true).push(false));
            }
            i = i + 1;
        }
        proof {
            assert(bits_msb(byte).subrange(0, 8) =~= bits_msb(byte));
            assert(clock_pulses(8).subrange(0, 16) =~= clock_pulses(8));
        }
        self.log = Ghost(self.log@.push(byte));
        Ok(())
    }

    #[verifier::loop_isolation(false)]
    fn write(&mut self, bytes: &[u8]) -> (r: Result<(), CLK::PinError>) {
        let mut i: usize = 0;
        while i < bytes.len()
            invariant
                i <= bytes@.len(),
                self.sent() == old(self).sent() + bytes@.subrange(0, i as int),
            decreases bytes@.len() - i,
        {
            let ghost sent_before = self.sent();
            match self.write_byte(bytes[i]) {
                Ok(()) => {},
                Err(e) => {
                    proof {
                        assert(0 <= i as int <= bytes@.len() && self.sent() == old(self).sent()
                            + bytes@.subrange(0, i as int));
                    }
                    return Err(e);
                },
            }
            proof {
                assert(bytes@.subrange(0, i as int + 1) =~= bytes@.subrange(0, i as int).push(
                    bytes@[i as int],
                ));
            }
            i = i + 1;
        }
        proof {
            assert(bytes@.subrange(0, bytes@.len() as int) =~= bytes@);
        }
        Ok(())
    }
}

} // verus!
