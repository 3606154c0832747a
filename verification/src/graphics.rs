//! Framebuffer/pixel view: an in-memory mirror of the chip's DDRAM.
//!
//! Drawing mutates only this buffer; nothing reaches the hardware until
//! [`PCD8544::flush`] streams all 504 bytes in the exact bank-major order
//! the chip's auto-incrementing address pointer expects. Pixel `(x, y)`
//! lives in byte `(y / 8) * 84 + x`, at bit `y % 8`.

use vstd::prelude::*;
use vstd::std_specs::vec::vec_index_mut;

use crate::display::{
    as_data,
    command_events,
    cursor_after,
    data_run,
    lemma_cursor_after_index,
    lemma_data_run_bus,
    lemma_data_run_cursor,
    lemma_data_run_frame,
    BusEvent,
    DriverView,
    PCD8544,
    PCDError,
};
use crate::instructions::{function_set_byte, Instruction};
use crate::pins::OutputPin;
use crate::transport::SerialLink;

verus! {

/// The two states of a monochrome pixel.
#[derive(Debug, Clone, Copy, PartialEq, Eq)]
pub enum BinaryColor {
    /// A lit (dark, in the normal display mode) pixel: the DDRAM bit is set.
    On,
    /// An unlit pixel: the DDRAM bit is clear.
    Off,
}

/// One drawing request: a coordinate pair and a color. Coordinates are
/// signed so that callers can hand over off-screen positions freely; those
/// are ignored, never an error.
#[derive(Debug, Clone, Copy)]
pub struct Pixel {
    /// Horizontal position, 0 at the left edge.
    pub x: i32,
    /// Vertical position, 0 at the top edge.
    pub y: i32,
    /// The color to put there.
    pub color: BinaryColor,
}

/// The byte a whole-buffer fill writes everywhere: all bits set for `On`,
/// all clear for `Off`.
pub open spec fn fill_byte(color: BinaryColor) -> u8 {
    match color {
        BinaryColor::On => 0xff,
        BinaryColor::Off => 0x00,
    }
}

/// Whether `(x, y)` lies on the 84-by-48 screen.
pub open spec fn pixel_in_bounds(x: u32, y: u32) -> bool {
    x < 84 && y < 48
}

/// The buffer index holding pixel `(x, y)`: bank-major, one byte per
/// vertical eight-pixel strip.
pub open spec fn pixel_index(x: u32, y: u32) -> int {
    (y / 8) * 84 + x
}

/// The bit mask selecting pixel `(x, y)` within its byte.
pub open spec fn pixel_mask(y: u32) -> u8 {
    1u8 << (y % 8)
}

/// Effect of a pixel write on the buffer contents: in bounds, the pixel's
/// bit is ORed in (`On`) or masked out (`Off`); out of bounds, the buffer
/// is untouched.
pub open spec fn spec_set_pixel(s: Seq<u8>, x: u32, y: u32, color: BinaryColor) -> Seq<u8> {
    if pixel_in_bounds(x, y) {
        let i = pixel_index(x, y);
        match color {
            BinaryColor::On => s.update(i, s[i] | pixel_mask(y)),
            BinaryColor::Off => s.update(i, s[i] & !pixel_mask(y)),
        }
    } else {
        s
    }
}

/// Effect of a batch of drawing requests, applied in order; requests whose
/// coordinates fall off the screen are skipped.
pub open spec fn spec_draw(s: Seq<u8>, pixels: Seq<Pixel>) -> Seq<u8>
    decreases pixels.len(),
{
    if pixels.len() == 0 {
        s
    } else {
        let p = pixels.last();
        let prev = spec_draw(s, pixels.drop_last());
        if 0 <= p.x < 84 && 0 <= p.y < 48 {
            spec_set_pixel(prev, p.x as u32, p.y as u32, p.color)
        } else {
            prev
        }
    }
}

/// An in-memory bitmap with the exact 504-byte layout of the chip's DDRAM.
pub struct Framebuffer {
    data: Vec<u8>,
}

impl View for Framebuffer {
    type V = Seq<u8>;

    closed spec fn view(&self) -> Seq<u8> {
        self.data@
    }
}

impl Framebuffer {
    /// Well-formedness: the buffer spans exactly the 504 DDRAM bytes.
    pub open spec fn wf(&self) -> bool {
        self@.len() == 504
    }

    /// A fresh, all-clear framebuffer.
    pub fn new() -> (fb: Framebuffer)
        ensures
            fb.wf(),
            forall|i: int| 0 <= i < 504 ==> fb@[i] == 0u8,
    {
        Framebuffer { data: vec![0u8; 504] }
    }

    /// Fill the whole buffer with lit or unlit pixels, in one pass and with
    /// no hardware traffic.
    pub fn clear(&mut self, color: BinaryColor)
        ensures
            final(self).wf(),
            forall|i: int| 0 <= i < 504 ==> final(self)@[i] == fill_byte(color),
    {
        let b = match color {
            BinaryColor::On => 0xff,
            BinaryColor::Off => 0x00,
        };
        self.data = vec![b; 504];
    }

    /// Set or clear the pixel at `(x, y)`. Out-of-bounds coordinates are
    /// silently ignored: off-screen draws are routine in drawing code and
    /// must not be fatal.
    pub fn set_pixel(&mut self, x: u32, y: u32, color: BinaryColor)
        requires
            old(self).wf(),
        ensures
            final(self).wf(),
            final(self)@ == spec_set_pixel(old(self)@, x, y, color),
    {
        if x < 84 && y < 48 {
            let idx: usize = ((y / 8) * 84 + x) as usize;
            let mask: u8 = 1u8 << (y % 8);
            let slot = vec_index_mut(&mut self.data, idx);
            match color {
                BinaryColor::On => {
                    *slot = *slot | mask;
                },
                BinaryColor::Off => {
                    *slot = *slot & !mask;
                },
            }
        }
    }

    /// Apply a batch of drawing requests in order, skipping any whose
    /// coordinates fall off the screen.
    #[verifier::loop_isolation(false)]
    pub fn draw_iter(&mut self, pixels: &Vec<Pixel>)
        requires
            old(self).wf(),
        ensures
            final(self).wf(),
            final(self)@ == spec_draw(old(self)@, pixels@),
    {
        let mut i: usize = 0;
        while i < pixels.len()
            invariant
                i <= pixels@.len(),
                self.wf(),
                self@ == spec_draw(old(self)@, pixels@.take(i as int)),
            decreases pixels@.len() - i,
        {
            let p = pixels[i];
            if 0 <= p.x && p.x < 84 && 0 <= p.y && p.y < 48 {
                self.set_pixel(p.x as u32, p.y as u32, p.color);
            }
            proof {
                assert(pixels@.take(i as int + 1).drop_last() =~= pixels@.take(i as int));
            }
            i = i + 1;
        }
        proof {
            assert(pixels@.take(pixels@.len() as int) =~= pixels@);
        }
    }

    /// The fixed size of the drawable surface, in pixels: 84 wide, 48 tall.
    pub fn size(&self) -> (r: (u32, u32))
        ensures
            r.0 == 84,
            r.1 == 48,
    {
        (84, 48)
    }

    /// The raw buffer contents, for reading back what was drawn.
    pub fn bytes(&self) -> (r: &Vec<u8>)
        ensures
            r@ == self@,
    {
        &self.data
    }
}

/// Everything a flush puts on the bus: the two address-set commands moving
/// the write pointer to the origin, then the whole buffer as data.
pub open spec fn flush_events(pd: bool, vertical: bool, buffer: Seq<u8>) -> Seq<BusEvent> {
    seq![
        BusEvent::Command(function_set_byte(pd, vertical, false)),
        BusEvent::Command(0x80),
        BusEvent::Command(function_set_byte(pd, vertical, false)),
        BusEvent::Command(0x40),
    ] + as_data(buffer)
}

impl<SPI, DC, CE, RST, LIGHT, E> PCD8544<SPI, DC, CE, RST, LIGHT> where
    SPI: SerialLink<LinkError = E>,
    DC: OutputPin<PinError = E>,
    CE: OutputPin<PinError = E>,
    RST: OutputPin<PinError = E>,
    LIGHT: OutputPin<PinError = E>,
 {
    /// Stream a framebuffer to the chip: move the hardware write pointer to
    /// the origin with two address commands, then send all 504 bytes in
    /// bank-major order — exactly the order the auto-incrementing pointer
    /// expects, so the on-screen image matches the buffer. Streaming the
    /// full memory wraps the pointer, and its shadow, back to the origin.
    #[verifier::loop_isolation(false)]
    pub fn flush(&mut self, framebuffer: &Framebuffer) -> (r: Result<(), PCDError<E>>)
        requires
            old(self).wf(),
            framebuffer.wf(),
        ensures
            final(self).wf(),
            final(self).base_log() == old(self).base_log(),
            final(self)@.power_down == old(self)@.power_down,
            final(self)@.vertical == old(self)@.vertical,
            crate::display::same_text_cursor(old(self)@, final(self)@),
            r is Ok ==> final(self)@ == (DriverView {
                x: 0,
                y: 0,
                extended: false,
                bus: old(self)@.bus + flush_events(
                    old(self)@.power_down,
                    old(self)@.vertical,
                    framebuffer@,
                ),
                ..old(self)@
            }),
            r is Err ==> exists|k: int|
                0 <= k <= 508 && final(self)@.bus == old(self)@.bus + flush_events(
                    old(self)@.power_down,
                    old(self)@.vertical,
                    framebuffer@,
                ).subrange(0, k),
    {
        let ghost fe = flush_events(old(self)@.power_down, old(self)@.vertical, framebuffer@);
        match self.write_command(Instruction::Xaddress(0)) {
            Ok(()) => {},
            Err(e) => {
                proof {
                    assert(0x80u8 | 0 == 0x80u8) by (bit_vector);
                    let k2 = choose|k2: int|
                        0 <= k2 <= 2 && self@.bus == old(self)@.bus + command_events(
                            old(self)@,
                            Instruction::Xaddress(0),
                        ).subrange(0, k2);
                    assert(fe.subrange(0, k2) =~= command_events(
                        old(self)@,
                        Instruction::Xaddress(0),
                    ).subrange(0, k2));
                    assert(self@.bus == old(self)@.bus + fe.subrange(0, k2));
                }
                return Err(e);
            },
        }
        let ghost after_x = self@;
        match self.write_command(Instruction::Yaddress(0)) {
            Ok(()) => {},
            Err(e) => {
                proof {
                    assert(0x80u8 | 0 == 0x80u8) by (bit_vector);
                    assert(0x40u8 | 0 == 0x40u8) by (bit_vector);
                    assert(after_x.bus =~= old(self)@.bus + fe.subrange(0, 2));
                    let k2 = choose|k2: int|
                        0 <= k2 <= 2 && self@.bus == after_x.bus + command_events(
                            after_x,
                            Instruction::Yaddress(0),
                        ).subrange(0, k2);
                    assert(fe.subrange(0, 2 + k2) =~= fe.subrange(0, 2) + command_events(
                        after_x,
                        Instruction::Yaddress(0),
                    ).subrange(0, k2));
                    assert(self@.bus =~= old(self)@.bus + fe.subrange(0, 2 + k2));
                }
                return Err(e);
            },
        }
        proof {
            assert(0x80u8 | 0 == 0x80u8) by (bit_vector);
            assert(0x40u8 | 0 == 0x40u8) by (bit_vector);
        }
        let ghost positioned = self@;
        let bytes = framebuffer.bytes();
        let mut i: usize = 0;
        while i < bytes.len()
            invariant
                i <= bytes@.len(),
                self.wf(),
                self.base_log() == old(self).base_log(),
                self@ == data_run(positioned, bytes@.take(i as int)),
            decreases bytes@.len() - i,
        {
            let ghost pre_bus = self@.bus;
            match self.write_data(bytes[i]) {
                Ok(()) => {},
                Err(e) => {
                    proof {
                        lemma_data_run_frame(positioned, bytes@.take(i as int));
                        lemma_data_run_bus(positioned, bytes@.take(i as int));
                        assert(positioned.bus =~= old(self)@.bus + fe.subrange(0, 4));
                        assert(fe.subrange(0, 4 + i as int) =~= fe.subrange(0, 4) + as_data(
                            bytes@.take(i as int),
                        ));
                        assert(fe.subrange(0, 4 + i as int + 1) =~= fe.subrange(
                            0,
                            4 + i as int,
                        ).push(BusEvent::Data(bytes@[i as int])));
                        if self@.bus == pre_bus {
                            assert(self@.bus =~= old(self)@.bus + fe.subrange(0, 4 + i as int));
                        } else {
                            assert(self@.bus =~= old(self)@.bus + fe.subrange(
                                0,
                                4 + i as int + 1,
                            ));
                        }
                    }
                    return Err(e);
                },
            }
            proof {
                assert(bytes@.take(i as int + 1).drop_last() =~= bytes@.take(i as int));
                assert(self@ =~= data_run(positioned, bytes@.take(i as int + 1)));
            }
            i = i + 1;
        }
        proof {
            assert(bytes@.take(bytes@.len() as int) =~= bytes@);
            lemma_data_run_frame(positioned, framebuffer@);
            lemma_data_run_bus(positioned, framebuffer@);
            lemma_data_run_cursor(positioned, framebuffer@);
            lemma_cursor_after_index(0, 0, 504);
            assert(cursor_after(0, 0, 504).0 == 0 && cursor_after(0, 0, 504).1 == 0);
            assert(self@ =~= DriverView {
                x: 0,
                y: 0,
                extended: false,
                bus: old(self)@.bus + flush_events(
                    old(self)@.power_down,
                    old(self)@.vertical,
                    framebuffer@,
                ),
                ..old(self)@
            });
        }
        Ok(())
    }
}

/// Masking is exact and idempotent: setting a pixel and then clearing it
/// leaves the byte exactly as clearing it alone would — `(b | m) & !m`
/// equals `b & !m` — so the toggle restores every other bit of the byte.
pub proof fn lemma_set_then_clear_pixel(s: Seq<u8>, x: u32, y: u32)
    requires
        s.len() == 504,
    ensures
        spec_set_pixel(spec_set_pixel(s, x, y, BinaryColor::On), x, y, BinaryColor::Off)
            == spec_set_pixel(s, x, y, BinaryColor::Off),
{
    if pixel_in_bounds(x, y) {
        let i = pixel_index(x, y);
        let b = s[i];
        let m = pixel_mask(y);
        assert((b | m) & !m == b & !m) by (bit_vector);
        assert(spec_set_pixel(spec_set_pixel(s, x, y, BinaryColor::On), x, y, BinaryColor::Off)
            =~= spec_set_pixel(s, x, y, BinaryColor::Off));
    }
}

/// Off-screen coordinates leave the buffer untouched: no error, no panic,
/// no out-of-bounds write.
pub proof fn lemma_set_pixel_out_of_bounds(s: Seq<u8>, x: u32, y: u32, color: BinaryColor)
    requires
        !pixel_in_bounds(x, y),
    ensures
        spec_set_pixel(s, x, y, color) == s,
{
}

} // verus!
