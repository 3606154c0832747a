//! Driver core for the PCD8544 monochrome LCD controller (Nokia 5110/3310-era
//! displays).
//!
//! The chip is write-only: it cannot be queried for its current mode bits or
//! for the position of its auto-incrementing DDRAM write pointer. The driver
//! therefore keeps a shadow copy of that state and proves that every byte it
//! puts on the wire keeps the shadow and the hardware in lockstep.
//!
//! The crate is organised around one controller type, [`display::PCD8544`],
//! which owns a serial transport and the framing pins, plus two optional
//! views over the chip's 504-byte DDRAM: a character grid
//! ([`textmode`]) and a pixel framebuffer ([`graphics`]).

use vstd::prelude::*;

pub mod bitbang;
pub mod display;
pub mod dummypins;
pub mod graphics;
pub mod instructions;
pub mod pins;
pub mod textmode;
pub mod transport;

pub use crate::display::PCD8544;

verus! {

/// Width of the screen in pixels (and DDRAM columns per bank).
pub const WIDTH: u8 = 84;

/// Height of the screen in pixels.
pub const HEIGHT: u8 = 48;

/// Number of eight-pixel-tall text rows.
pub const ROWS: u8 = 6;

/// Number of memory banks in the chip's DDRAM (each one byte tall).
pub const DDRAM_BANKS: usize = 6;

/// Total DDRAM size in bytes: 84 columns times 6 banks.
pub const DDRAM_SIZE: usize = 504;

} // verus!
