//! The PCD8544 instruction set and its byte-level encoding.
//!
//! Every command the chip understands is a single byte. The upper bits select
//! the instruction family, the lower bits carry the argument. Some commands
//! are only decoded while the chip's extended instruction set is selected;
//! [`Instruction::mode`] reports which.

use vstd::prelude::*;

verus! {

/// Temperature coefficient for the chip's automatic contrast compensation.
///
/// Each step adds a fixed voltage per degree Kelvin below 27 degrees Celsius:
/// 1 mV/K for `TC0`, 9 for `TC1`, 17 for `TC2` and 24 for `TC3`.
#[derive(Debug, Clone, Copy)]
pub enum TemperatureCoefficient {
    /// Adds 1 mV/K.
    TC0,
    /// Adds 9 mV/K.
    TC1,
    /// Adds 17 mV/K.
    TC2,
    /// Adds 24 mV/K.
    TC3,
}

impl TemperatureCoefficient {
    /// The two-bit code the chip expects for this coefficient.
    pub open spec fn code(self) -> u8 {
        match self {
            TemperatureCoefficient::TC0 => 0,
            TemperatureCoefficient::TC1 => 1,
            TemperatureCoefficient::TC2 => 2,
            TemperatureCoefficient::TC3 => 3,
        }
    }
}

/// Bias voltage selection, expressed as the multiplex ratio of the LCD glass.
///
/// The common Nokia 5110 screen is multiplexed 1:48, so `Bias1To48` is the
/// canonical choice there.
#[derive(Debug, Clone, Copy)]
pub enum MuxRate {
    /// Bias for a multiplex ratio of 1:100.
    Bias1To100,
    /// Bias for a multiplex ratio of 1:80.
    Bias1To80,
    /// Bias for a multiplex ratio of 1:65.
    Bias1To65,
    /// Bias for a multiplex ratio of 1:48 (the Nokia 5110 value).
    Bias1To48,
    /// Bias for a multiplex ratio of 1:40.
    Bias1To40,
    /// Bias for a multiplex ratio of 1:24.
    Bias1To24,
    /// Bias for a multiplex ratio of 1:18.
    Bias1To18,
    /// Bias for a multiplex ratio of 1:10.
    Bias1To10,
}

impl MuxRate {
    /// The three-bit code the chip expects for this bias setting.
    pub open spec fn code(self) -> u8 {
        match self {
            MuxRate::Bias1To100 => 0,
            MuxRate::Bias1To80 => 1,
            MuxRate::Bias1To65 => 2,
            MuxRate::Bias1To48 => 3,
            MuxRate::Bias1To40 => 4,
            MuxRate::Bias1To24 => 5,
            MuxRate::Bias1To18 => 6,
            MuxRate::Bias1To10 => 7,
        }
    }
}

/// Display configuration: what the chip shows, independent of DDRAM contents.
#[derive(Debug, Clone, Copy)]
pub enum DisplayMode {
    /// All pixels off, whatever DDRAM holds.
    DisplayBlank,
    /// Show the DDRAM image; a set bit is a dark pixel.
    Normal,
    /// All pixels on, whatever DDRAM holds.
    AllSegmentsOn,
    /// Show the inverted DDRAM image; a clear bit is a dark pixel.
    InverseVideo,
}

impl DisplayMode {
    /// The three-bit code the chip expects for this display mode.
    pub open spec fn code(self) -> u8 {
        match self {
            DisplayMode::DisplayBlank => 0b000,
            DisplayMode::Normal => 0b100,
            DisplayMode::AllSegmentsOn => 0b001,
            DisplayMode::InverseVideo => 0b101,
        }
    }
}

/// The PCD8544 instruction set, basic and extended commands together.
#[derive(Debug, Clone, Copy)]
pub enum Instruction {
    /// No operation.
    NOP,
    /// Set the chip's mode register: power down, entry mode (vertical
    /// addressing) and basic/extended instruction selection.
    FunctionSet {
        /// Power down: `true` puts the chip in low-power standby.
        pd: bool,
        /// Vertical addressing: `true` makes DDRAM writes walk banks first.
        v: bool,
        /// Extended instruction set: `true` selects extended decoding.
        h: bool,
    },
    /// Configure what the display shows.
    SetDisplayMode(DisplayMode),
    /// Set the DDRAM bank (Y address), which must be below 6.
    Yaddress(u8),
    /// Set the DDRAM column (X address), which must be at most 84.
    Xaddress(u8),
    /// Select the temperature compensation curve (extended mode only).
    SetTempCoefficient(TemperatureCoefficient),
    /// Select the bias voltage level (extended mode only).
    SetBiasMode(MuxRate),
    /// Set the LCD drive voltage, i.e. the contrast (extended mode only).
    /// Values of 128 and above are masked down to seven bits.
    SetVop(u8),
}

impl Instruction {
    /// Whether the encoding preconditions hold: the Y address must name one
    /// of the 6 banks, and the X address must fit the 84-column row.
    pub open spec fn arg_in_range(self) -> bool {
        match self {
            Instruction::Yaddress(y) => y < 6,
            Instruction::Xaddress(x) => x <= 84,
            _ => true,
        }
    }

    /// The wire byte for this instruction: the family opcode with the
    /// argument bits folded into the low end.
    pub open spec fn encoding(self) -> u8 {
        match self {
            Instruction::NOP => 0x00,
            Instruction::FunctionSet { pd, v, h } => function_set_byte(pd, v, h),
            Instruction::SetDisplayMode(mode) => 0x08 | mode.code(),
            Instruction::Yaddress(y) => 0x40 | y,
            Instruction::Xaddress(x) => 0x80 | x,
            Instruction::SetTempCoefficient(coeff) => 0x04 | coeff.code(),
            Instruction::SetBiasMode(mux) => 0x10 | mux.code(),
            Instruction::SetVop(contrast) => 0x80 | (contrast & 0x7f),
        }
    }

    /// Whether the chip decodes this instruction only in extended mode.
    pub open spec fn extended(self) -> bool {
        match self {
            Instruction::NOP => false,
            Instruction::FunctionSet { .. } => false,
            Instruction::SetDisplayMode(_) => false,
            Instruction::Yaddress(_) => false,
            Instruction::Xaddress(_) => false,
            Instruction::SetTempCoefficient(_) => true,
            Instruction::SetBiasMode(_) => true,
            Instruction::SetVop(_) => true,
        }
    }

    /// Encode this instruction as the byte sent over the wire.
    pub fn byte(self) -> (b: u8)
        requires
            self.arg_in_range(),
        ensures
            b == self.encoding(),
    {
        match self {
            Instruction::NOP => 0x00,
            Instruction::FunctionSet { pd, v, h } => {
                let pd_bit: u8 = if pd { 0x04 } else { 0x00 };
                let v_bit: u8 = if v { 0x02 } else { 0x00 };
                let h_bit: u8 = if h { 0x01 } else { 0x00 };
                0x20 | pd_bit | v_bit | h_bit
            },
            Instruction::SetDisplayMode(mode) => {
                let code: u8 = match mode {
                    DisplayMode::DisplayBlank => 0b000,
                    DisplayMode::Normal => 0b100,
                    DisplayMode::AllSegmentsOn => 0b001,
                    DisplayMode::InverseVideo => 0b101,
                };
                0x08 | code
            },
            Instruction::Yaddress(y) => 0x40 | y,
            Instruction::Xaddress(x) => 0x80 | x,
            Instruction::SetTempCoefficient(coeff) => {
                let code: u8 = match coeff {
                    TemperatureCoefficient::TC0 => 0,
                    TemperatureCoefficient::TC1 => 1,
                    TemperatureCoefficient::TC2 => 2,
                    TemperatureCoefficient::TC3 => 3,
                };
                0x04 | code
            },
            Instruction::SetBiasMode(mux) => {
                let code: u8 = match mux {
                    MuxRate::Bias1To100 => 0,
                    MuxRate::Bias1To80 => 1,
                    MuxRate::Bias1To65 => 2,
                    MuxRate::Bias1To48 => 3,
                    MuxRate::Bias1To40 => 4,
                    MuxRate::Bias1To24 => 5,
                    MuxRate::Bias1To18 => 6,
                    MuxRate::Bias1To10 => 7,
                };
                0x10 | code
            },
            Instruction::SetVop(contrast) => 0x80 | (contrast & 0x7f),
        }
    }

    /// Report whether this instruction needs the extended instruction set
    /// (`true`) or the basic one (`false`).
    ///
    /// `NOP` and `FunctionSet` are decoded in either mode and report `false`.
    pub fn mode(&self) -> (extended: bool)
        ensures
            extended == self.extended(),
    {
        match self {
            Instruction::NOP => false,
            Instruction::FunctionSet { .. } => false,
            Instruction::SetDisplayMode(_) => false,
            Instruction::Yaddress(_) => false,
            Instruction::Xaddress(_) => false,
            Instruction::SetTempCoefficient(_) => true,
            Instruction::SetBiasMode(_) => true,
            Instruction::SetVop(_) => true,
        }
    }
}

/// The mode-register byte: `0x20` with the power-down, vertical-addressing
/// and extended-instruction bits folded in.
pub open spec fn function_set_byte(pd: bool, v: bool, h: bool) -> u8 {
    0x20 | (if pd { 0x04u8 } else { 0x00u8 }) | (if v { 0x02u8 } else { 0x00u8 })
        | (if h { 0x01u8 } else { 0x00u8 })
}

/// The encoder is a pure function of the instruction, and every encoded byte
/// starts with the opcode bits of its instruction family.
///
/// The family is read off the high bits: `NOP` is exactly zero,
/// `SetTempCoefficient` owns `0b0000_01xx`, `SetDisplayMode` owns
/// `0b0000_1xxx`, `SetBiasMode` owns `0b0001_0xxx`, `FunctionSet` owns
/// `0b0010_0xxx`, `Yaddress` owns `0b0100_0xxx`, and `Xaddress` and `SetVop`
/// share the leading `1` bit, disambiguated by the instruction-set mode under
/// which the chip receives them.
pub proof fn lemma_encoding_opcode_family(i: Instruction)
    requires
        i.arg_in_range(),
    ensures
        i matches Instruction::NOP ==> i.encoding() == 0x00,
        i matches Instruction::FunctionSet { .. } ==> i.encoding() & 0xf8 == 0x20,
        i matches Instruction::SetDisplayMode(_) ==> i.encoding() & 0xf8 == 0x08,
        i matches Instruction::Yaddress(_) ==> i.encoding() & 0xf8 == 0x40,
        i matches Instruction::Xaddress(_) ==> i.encoding() & 0x80 == 0x80,
        i matches Instruction::SetTempCoefficient(_) ==> i.encoding() & 0xfc == 0x04,
        i matches Instruction::SetBiasMode(_) ==> i.encoding() & 0xf8 == 0x10,
        i matches Instruction::SetVop(_) ==> i.encoding() & 0x80 == 0x80,
{
    match i {
        Instruction::NOP => {},
        Instruction::FunctionSet { pd, v, h } => {
            let b = function_set_byte(pd, v, h);
            assert((0x20u8 | (if pd { 0x04u8 } else { 0x00u8 }) | (if v { 0x02u8 } else {
                0x00u8
            }) | (if h { 0x01u8 } else { 0x00u8 })) & 0xf8 == 0x20) by (bit_vector);
        },
        Instruction::SetDisplayMode(mode) => {
            let c = mode.code();
            assert(c < 8 ==> (0x08u8 | c) & 0xf8 == 0x08) by (bit_vector);
        },
        Instruction::Yaddress(y) => {
            assert(y < 6 ==> (0x40u8 | y) & 0xf8 == 0x40) by (bit_vector);
        },
        Instruction::Xaddress(x) => {
            assert(x <= 84 ==> (0x80u8 | x) & 0x80 == 0x80) by (bit_vector);
        },
        Instruction::SetTempCoefficient(coeff) => {
            let c = coeff.code();
            assert(c < 4 ==> (0x04u8 | c) & 0xfc == 0x04) by (bit_vector);
        },
        Instruction::SetBiasMode(mux) => {
            let c = mux.code();
            assert(c < 8 ==> (0x10u8 | c) & 0xf8 == 0x10) by (bit_vector);
        },
        Instruction::SetVop(contrast) => {
            assert((0x80u8 | (contrast & 0x7f)) & 0x80 == 0x80) by (bit_vector);
        },
    }
}

/// Contrast values are masked to seven bits, not saturated: `SetVop(vop)`
/// encodes exactly like `SetVop(vop & 0x7f)`.
pub proof fn lemma_contrast_masking(vop: u8)
    ensures
        Instruction::SetVop(vop).encoding() == Instruction::SetVop(vop & 0x7f).encoding(),
{
    assert(0x80u8 | (vop & 0x7f) == 0x80u8 | ((vop & 0x7f) & 0x7f)) by (bit_vector);
}

} // verus!
