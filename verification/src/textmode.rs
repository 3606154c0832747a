//! Text view: a 14-by-6 character grid over the controller core.
//!
//! Characters render through a built-in 6-by-8 font: five glyph columns
//! plus one blank separator column, written as DDRAM data. A separate text
//! cursor (column and row) rides in lockstep with the pixel cursor
//! (`column * 6` is the pixel column), advancing and wrapping
//! teletype-style: past the last column it carriage-returns and line-feeds,
//! and past the last row it wraps back to the top of the fixed viewport.

use vstd::prelude::*;
use vstd::string::StrSliceExecFns;

use crate::display::{
    as_data,
    clear_events,
    command_events,
    command_step,
    cursor_after,
    cursor_index,
    data_run,
    lemma_cursor_after_index,
    lemma_data_run_bus,
    lemma_data_run_cursor,
    lemma_data_run_frame,
    same_state_except_bus,
    BusEvent,
    DriverView,
    PCD8544,
    PCDError,
};
use crate::instructions::Instruction;
use crate::pins::OutputPin;
use crate::transport::SerialLink;

verus! {

/// The five glyph columns for a character, top bit at the bottom of the
/// eight-pixel cell. The font covers printable ASCII and a few extension
/// symbols; anything else renders as a filled block, a visible
/// unknown-character marker.
pub open spec fn glyph(c: char) -> Seq<u8> {
    match c {
        ' ' => seq![0x00u8, 0x00u8, 0x00u8, 0x00u8, 0x00u8],
        '!' => seq![0x00u8, 0x00u8, 0x5fu8, 0x00u8, 0x00u8],
        '"' => seq![0x00u8, 0x07u8, 0x00u8, 0x07u8, 0x00u8],
        '#' => seq![0x14u8, 0x7fu8, 0x14u8, 0x7fu8, 0x14u8],
        '$' => seq![0x24u8, 0x2au8, 0x7fu8, 0x2au8, 0x12u8],
        '%' => seq![0x23u8, 0x13u8, 0x08u8, 0x64u8, 0x62u8],
        '&' => seq![0x36u8, 0x49u8, 0x55u8, 0x22u8, 0x50u8],
        '\'' => seq![0x00u8, 0x05u8, 0x03u8, 0x00u8, 0x00u8],
        '(' => seq![0x00u8, 0x1cu8, 0x22u8, 0x41u8, 0x00u8],
        ')' => seq![0x00u8, 0x41u8, 0x22u8, 0x1cu8, 0x00u8],
        '*' => seq![0x14u8, 0x08u8, 0x3eu8, 0x08u8, 0x14u8],
        '+' => seq![0x08u8, 0x08u8, 0x3eu8, 0x08u8, 0x08u8],
        ',' => seq![0x00u8, 0x50u8, 0x30u8, 0x00u8, 0x00u8],
        '-' => seq![0x08u8, 0x08u8, 0x08u8, 0x08u8, 0x08u8],
        '.' => seq![0x00u8, 0x60u8, 0x60u8, 0x00u8, 0x00u8],
        '/' => seq![0x20u8, 0x10u8, 0x08u8, 0x04u8, 0x02u8],
        '0' => seq![0x3eu8, 0x51u8, 0x49u8, 0x45u8, 0x3eu8],
        '1' => seq![0x00u8, 0x42u8, 0x7fu8, 0x40u8, 0x00u8],
        '2' => seq![0x42u8, 0x61u8, 0x51u8, 0x49u8, 0x46u8],
        '3' => seq![0x21u8, 0x41u8, 0x45u8, 0x4bu8, 0x31u8],
        '4' => seq![0x18u8, 0x14u8, 0x12u8, 0x7fu8, 0x10u8],
        '5' => seq![0x27u8, 0x45u8, 0x45u8, 0x45u8, 0x39u8],
        '6' => seq![0x3cu8, 0x4au8, 0x49u8, 0x49u8, 0x30u8],
        '7' => seq![0x01u8, 0x71u8, 0x09u8, 0x05u8, 0x03u8],
        '8' => seq![0x36u8, 0x49u8, 0x49u8, 0x49u8, 0x36u8],
        '9' => seq![0x06u8, 0x49u8, 0x49u8, 0x29u8, 0x1eu8],
        ':' => seq![0x00u8, 0x36u8, 0x36u8, 0x00u8, 0x00u8],
        ';' => seq![0x00u8, 0x56u8, 0x36u8, 0x00u8, 0x00u8],
        '<' => seq![0x08u8, 0x14u8, 0x22u8, 0x41u8, 0x00u8],
        '=' => seq![0x14u8, 0x14u8, 0x14u8, 0x14u8, 0x14u8],
        '>' => seq![0x00u8, 0x41u8, 0x22u8, 0x14u8, 0x08u8],
        '?' => seq![0x02u8, 0x01u8, 0x51u8, 0x09u8, 0x06u8],
        '@' => seq![0x32u8, 0x49u8, 0x79u8, 0x41u8, 0x3eu8],
        'A' => seq![0x7eu8, 0x11u8, 0x11u8, 0x11u8, 0x7eu8],
        'B' => seq![0x7fu8, 0x49u8, 0x49u8, 0x49u8, 0x36u8],
        'C' => seq![0x3eu8, 0x41u8, 0x41u8, 0x41u8, 0x22u8],
        'D' => seq![0x7fu8, 0x41u8, 0x41u8, 0x22u8, 0x1cu8],
        'E' => seq![0x7fu8, 0x49u8, 0x49u8, 0x49u8, 0x41u8],
        'F' => seq![0x7fu8, 0x09u8, 0x09u8, 0x09u8, 0x01u8],
        'G' => seq![0x3eu8, 0x41u8, 0x49u8, 0x49u8, 0x7au8],
        'H' => seq![0x7fu8, 0x08u8, 0x08u8, 0x08u8, 0x7fu8],
        'I' => seq![0x00u8, 0x41u8, 0x7fu8, 0x41u8, 0x00u8],
        'J' => seq![0x20u8, 0x40u8, 0x41u8, 0x3fu8, 0x01u8],
        'K' => seq![0x7fu8, 0x08u8, 0x14u8, 0x22u8, 0x41u8],
        'L' => seq![0x7fu8, 0x40u8, 0x40u8, 0x40u8, 0x40u8],
        'M' => seq![0x7fu8, 0x02u8, 0x0cu8, 0x02u8, 0x7fu8],
        'N' => seq![0x7fu8, 0x04u8, 0x08u8, 0x10u8, 0x7fu8],
        'O' => seq![0x3eu8, 0x41u8, 0x41u8, 0x41u8, 0x3eu8],
        'P' => seq![0x7fu8, 0x09u8, 0x09u8, 0x09u8, 0x06u8],
        'Q' => seq![0x3eu8, 0x41u8, 0x51u8, 0x21u8, 0x5eu8],
        'R' => seq![0x7fu8, 0x09u8, 0x19u8, 0x29u8, 0x46u8],
        'S' => seq![0x46u8, 0x49u8, 0x49u8, 0x49u8, 0x31u8],
        'T' => seq![0x01u8, 0x01u8, 0x7fu8, 0x01u8, 0x01u8],
        'U' => seq![0x3fu8, 0x40u8, 0x40u8, 0x40u8, 0x3fu8],
        'V' => seq![0x1fu8, 0x20u8, 0x40u8, 0x20u8, 0x1fu8],
        'W' => seq![0x3fu8, 0x40u8, 0x38u8, 0x40u8, 0x3fu8],
        'X' => seq![0x63u8, 0x14u8, 0x08u8, 0x14u8, 0x63u8],
        'Y' => seq![0x07u8, 0x08u8, 0x70u8, 0x08u8, 0x07u8],
        'Z' => seq![0x61u8, 0x51u8, 0x49u8, 0x45u8, 0x43u8],
        '[' => seq![0x00u8, 0x7fu8, 0x41u8, 0x41u8, 0x00u8],
        '\u{a5}' => seq![0x02u8, 0x04u8, 0x08u8, 0x10u8, 0x20u8],
        ']' => seq![0x00u8, 0x41u8, 0x41u8, 0x7fu8, 0x00u8],
        '^' => seq![0x04u8, 0x02u8, 0x01u8, 0x02u8, 0x04u8],
        '_' => seq![0x40u8, 0x40u8, 0x40u8, 0x40u8, 0x40u8],
        '`' => seq![0x00u8, 0x01u8, 0x02u8, 0x04u8, 0x00u8],
        'a' => seq![0x20u8, 0x54u8, 0x54u8, 0x54u8, 0x78u8],
        'b' => seq![0x7fu8, 0x48u8, 0x44u8, 0x44u8, 0x38u8],
        'c' => seq![0x38u8, 0x44u8, 0x44u8, 0x44u8, 0x20u8],
        'd' => seq![0x38u8, 0x44u8, 0x44u8, 0x48u8, 0x7fu8],
        'e' => seq![0x38u8, 0x54u8, 0x54u8, 0x54u8, 0x18u8],
        'f' => seq![0x08u8, 0x7eu8, 0x09u8, 0x01u8, 0x02u8],
        'g' => seq![0x0cu8, 0x52u8, 0x52u8, 0x52u8, 0x3eu8],
        'h' => seq![0x7fu8, 0x08u8, 0x04u8, 0x04u8, 0x78u8],
        'i' => seq![0x00u8, 0x44u8, 0x7du8, 0x40u8, 0x00u8],
        'j' => seq![0x20u8, 0x40u8, 0x44u8, 0x3du8, 0x00u8],
        'k' => seq![0x7fu8, 0x10u8, 0x28u8, 0x44u8, 0x00u8],
        'l' => seq![0x00u8, 0x41u8, 0x7fu8, 0x40u8, 0x00u8],
        'm' => seq![0x7cu8, 0x04u8, 0x18u8, 0x04u8, 0x78u8],
        'n' => seq![0x7cu8, 0x08u8, 0x04u8, 0x04u8, 0x78u8],
        'o' => seq![0x38u8, 0x44u8, 0x44u8, 0x44u8, 0x38u8],
        'p' => seq![0x7cu8, 0x14u8, 0x14u8, 0x14u8, 0x08u8],
        'q' => seq![0x08u8, 0x14u8, 0x14u8, 0x18u8, 0x7cu8],
        'r' => seq![0x7cu8, 0x08u8, 0x04u8, 0x04u8, 0x08u8],
        's' => seq![0x48u8, 0x54u8, 0x54u8, 0x54u8, 0x20u8],
        't' => seq![0x04u8, 0x3fu8, 0x44u8, 0x40u8, 0x20u8],
        'u' => seq![0x3cu8, 0x40u8, 0x40u8, 0x20u8, 0x7cu8],
        'v' => seq![0x1cu8, 0x20u8, 0x40u8, 0x20u8, 0x1cu8],
        'w' => seq![0x3cu8, 0x40u8, 0x30u8, 0x40u8, 0x3cu8],
        'x' => seq![0x44u8, 0x28u8, 0x10u8, 0x28u8, 0x44u8],
        'y' => seq![0x0cu8, 0x50u8, 0x50u8, 0x50u8, 0x3cu8],
        'z' => seq![0x44u8, 0x64u8, 0x54u8, 0x4cu8, 0x44u8],
        '{' => seq![0x00u8, 0x08u8, 0x36u8, 0x41u8, 0x00u8],
        '|' => seq![0x00u8, 0x00u8, 0x7fu8, 0x00u8, 0x00u8],
        '}' => seq![0x00u8, 0x41u8, 0x36u8, 0x08u8, 0x00u8],
        '\u{2190}' => seq![0x10u8, 0x08u8, 0x08u8, 0x10u8, 0x08u8],
        '\u{2192}' => seq![0x78u8, 0x46u8, 0x41u8, 0x46u8, 0x78u8],
        '\u{b0}' => seq![0x00u8, 0x02u8, 0x05u8, 0x02u8, 0x00u8],
        _ => seq![0xFFu8, 0xFFu8, 0xFFu8, 0xFFu8, 0xFFu8],
    }
}

/// Look up the five glyph columns for a character.
///
/// The sixth, blank separator column is appended by the writer, not stored.
pub fn char_to_bytes(c: char) -> (r: [u8; 5])
    ensures
        r@ == glyph(c),
{
    let r: [u8; 5] = match c {
        ' ' => [0x00, 0x00, 0x00, 0x00, 0x00],
        '!' => [0x00, 0x00, 0x5f, 0x00, 0x00],
        '"' => [0x00, 0x07, 0x00, 0x07, 0x00],
        '#' => [0x14, 0x7f, 0x14, 0x7f, 0x14],
        '$' => [0x24, 0x2a, 0x7f, 0x2a, 0x12],
        '%' => [0x23, 0x13, 0x08, 0x64, 0x62],
        '&' => [0x36, 0x49, 0x55, 0x22, 0x50],
        '\'' => [0x00, 0x05, 0x03, 0x00, 0x00],
        '(' => [0x00, 0x1c, 0x22, 0x41, 0x00],
        ')' => [0x00, 0x41, 0x22, 0x1c, 0x00],
        '*' => [0x14, 0x08, 0x3e, 0x08, 0x14],
        '+' => [0x08, 0x08, 0x3e, 0x08, 0x08],
        ',' => [0x00, 0x50, 0x30, 0x00, 0x00],
        '-' => [0x08, 0x08, 0x08, 0x08, 0x08],
        '.' => [0x00, 0x60, 0x60, 0x00, 0x00],
        '/' => [0x20, 0x10, 0x08, 0x04, 0x02],
        '0' => [0x3e, 0x51, 0x49, 0x45, 0x3e],
        '1' => [0x00, 0x42, 0x7f, 0x40, 0x00],
        '2' => [0x42, 0x61, 0x51, 0x49, 0x46],
        '3' => [0x21, 0x41, 0x45, 0x4b, 0x31],
        '4' => [0x18, 0x14, 0x12, 0x7f, 0x10],
        '5' => [0x27, 0x45, 0x45, 0x45, 0x39],
        '6' => [0x3c, 0x4a, 0x49, 0x49, 0x30],
        '7' => [0x01, 0x71, 0x09, 0x05, 0x03],
        '8' => [0x36, 0x49, 0x49, 0x49, 0x36],
        '9' => [0x06, 0x49, 0x49, 0x29, 0x1e],
        ':' => [0x00, 0x36, 0x36, 0x00, 0x00],
        ';' => [0x00, 0x56, 0x36, 0x00, 0x00],
        '<' => [0x08, 0x14, 0x22, 0x41, 0x00],
        '=' => [0x14, 0x14, 0x14, 0x14, 0x14],
        '>' => [0x00, 0x41, 0x22, 0x14, 0x08],
        '?' => [0x02, 0x01, 0x51, 0x09, 0x06],
        '@' => [0x32, 0x49, 0x79, 0x41, 0x3e],
        'A' => [0x7e, 0x11, 0x11, 0x11, 0x7e],
        'B' => [0x7f, 0x49, 0x49, 0x49, 0x36],
        'C' => [0x3e, 0x41, 0x41, 0x41, 0x22],
        'D' => [0x7f, 0x41, 0x41, 0x22, 0x1c],
        'E' => [0x7f, 0x49, 0x49, 0x49, 0x41],
        'F' => [0x7f, 0x09, 0x09, 0x09, 0x01],
        'G' => [0x3e, 0x41, 0x49, 0x49, 0x7a],
        'H' => [0x7f, 0x08, 0x08, 0x08, 0x7f],
        'I' => [0x00, 0x41, 0x7f, 0x41, 0x00],
        'J' => [0x20, 0x40, 0x41, 0x3f, 0x01],
        'K' => [0x7f, 0x08, 0x14, 0x22, 0x41],
        'L' => [0x7f, 0x40, 0x40, 0x40, 0x40],
        'M' => [0x7f, 0x02, 0x0c, 0x02, 0x7f],
        'N' => [0x7f, 0x04, 0x08, 0x10, 0x7f],
        'O' => [0x3e, 0x41, 0x41, 0x41, 0x3e],
        'P' => [0x7f, 0x09, 0x09, 0x09, 0x06],
        'Q' => [0x3e, 0x41, 0x51, 0x21, 0x5e],
        'R' => [0x7f, 0x09, 0x19, 0x29, 0x46],
        'S' => [0x46, 0x49, 0x49, 0x49, 0x31],
        'T' => [0x01, 0x01, 0x7f, 0x01, 0x01],
        'U' => [0x3f, 0x40, 0x40, 0x40, 0x3f],
        'V' => [0x1f, 0x20, 0x40, 0x20, 0x1f],
        'W' => [0x3f, 0x40, 0x38, 0x40, 0x3f],
        'X' => [0x63, 0x14, 0x08, 0x14, 0x63],
        'Y' => [0x07, 0x08, 0x70, 0x08, 0x07],
        'Z' => [0x61, 0x51, 0x49, 0x45, 0x43],
        '[' => [0x00, 0x7f, 0x41, 0x41, 0x00],
        '\u{a5}' => [0x02, 0x04, 0x08, 0x10, 0x20],
        ']' => [0x00, 0x41, 0x41, 0x7f, 0x00],
        '^' => [0x04, 0x02, 0x01, 0x02, 0x04],
        '_' => [0x40, 0x40, 0x40, 0x40, 0x40],
        '`' => [0x00, 0x01, 0x02, 0x04, 0x00],
        'a' => [0x20, 0x54, 0x54, 0x54, 0x78],
        'b' => [0x7f, 0x48, 0x44, 0x44, 0x38],
        'c' => [0x38, 0x44, 0x44, 0x44, 0x20],
        'd' => [0x38, 0x44, 0x44, 0x48, 0x7f],
        'e' => [0x38, 0x54, 0x54, 0x54, 0x18],
        'f' => [0x08, 0x7e, 0x09, 0x01, 0x02],
        'g' => [0x0c, 0x52, 0x52, 0x52, 0x3e],
        'h' => [0x7f, 0x08, 0x04, 0x04, 0x78],
        'i' => [0x00, 0x44, 0x7d, 0x40, 0x00],
        'j' => [0x20, 0x40, 0x44, 0x3d, 0x00],
        'k' => [0x7f, 0x10, 0x28, 0x44, 0x00],
        'l' => [0x00, 0x41, 0x7f, 0x40, 0x00],
        'm' => [0x7c, 0x04, 0x18, 0x04, 0x78],
        'n' => [0x7c, 0x08, 0x04, 0x04, 0x78],
        'o' => [0x38, 0x44, 0x44, 0x44, 0x38],
        'p' => [0x7c, 0x14, 0x14, 0x14, 0x08],
        'q' => [0x08, 0x14, 0x14, 0x18, 0x7c],
        'r' => [0x7c, 0x08, 0x04, 0x04, 0x08],
        's' => [0x48, 0x54, 0x54, 0x54, 0x20],
        't' => [0x04, 0x3f, 0x44, 0x40, 0x20],
        'u' => [0x3c, 0x40, 0x40, 0x20, 0x7c],
        'v' => [0x1c, 0x20, 0x40, 0x20, 0x1c],
        'w' => [0x3c, 0x40, 0x30, 0x40, 0x3c],
        'x' => [0x44, 0x28, 0x10, 0x28, 0x44],
        'y' => [0x0c, 0x50, 0x50, 0x50, 0x3c],
        'z' => [0x44, 0x64, 0x54, 0x4c, 0x44],
        '{' => [0x00, 0x08, 0x36, 0x41, 0x00],
        '|' => [0x00, 0x00, 0x7f, 0x00, 0x00],
        '}' => [0x00, 0x41, 0x36, 0x08, 0x00],
        '\u{2190}' => [0x10, 0x08, 0x08, 0x10, 0x08],
        '\u{2192}' => [0x78, 0x46, 0x41, 0x46, 0x78],
        '\u{b0}' => [0x00, 0x02, 0x05, 0x02, 0x00],
        _ => [0xFF, 0xFF, 0xFF, 0xFF, 0xFF],
    };
    proof {
        assert(r@ =~= glyph(c));
    }
    r
}

/// `n` zero bytes.
pub open spec fn zero_bytes(n: nat) -> Seq<u8> {
    Seq::new(n, |i: int| 0u8)
}

/// The text cursor cell following `(col, row)`: the column advances modulo
/// 14, and when it wraps the row advances modulo 6.
pub open spec fn text_next(col: u8, row: u8) -> (u8, u8) {
    if col == 13 {
        (0u8, if row == 5 {
            0u8
        } else {
            ((row + 1) as u8)
        })
    } else {
        (((col + 1) as u8), row)
    }
}

/// Effect of `set_col`: in range, the column shadow moves and an X-address
/// command (at six pixels per cell) goes out; out of range, nothing at all.
pub open spec fn set_col_step(st: DriverView, new_col: u8) -> DriverView {
    if new_col < 14 {
        DriverView { col: new_col, ..command_step(st, Instruction::Xaddress((6 * new_col) as u8)) }
    } else {
        st
    }
}

/// Effect of `set_row`: in range, the row shadow moves and a Y-address
/// command goes out; out of range, nothing at all.
pub open spec fn set_row_step(st: DriverView, new_row: u8) -> DriverView {
    if new_row < 6 {
        DriverView { row: new_row, ..command_step(st, Instruction::Yaddress(new_row)) }
    } else {
        st
    }
}

/// Effect of writing one character:
/// - a carriage return resets the column to 0 (an X-address command)
///   without touching the row;
/// - a line feed erases the rest of the row with zero bytes, then wraps to
///   the start of the next row (the last row wraps to the top);
/// - anything else writes its five glyph columns plus one separator column
///   as data and advances the cell cursor, wrapping the same way.
pub open spec fn char_step(st: DriverView, c: char) -> DriverView {
    if c == '\r' {
        set_col_step(st, 0)
    } else if c == '\n' {
        let cells: int = if st.col < 14 {
            14 - st.col
        } else {
            0
        };
        let padded = data_run(st, zero_bytes((6 * cells) as nat));
        DriverView {
            col: 0,
            row: if st.row == 5 {
                0u8
            } else {
                ((st.row + 1) as u8)
            },
            ..padded
        }
    } else {
        let written = data_run(st, glyph(c).push(0));
        DriverView {
            col: text_next(st.col, st.row).0,
            row: text_next(st.col, st.row).1,
            ..written
        }
    }
}

/// Everything one character puts on the bus: an X-address command (with
/// its function-set prefix) for a carriage return, zero-byte padding for a
/// line feed, and the five glyph columns plus the separator column for
/// anything else.
pub open spec fn char_events(st: DriverView, c: char) -> Seq<BusEvent> {
    if c == '\r' {
        command_events(st, Instruction::Xaddress(0))
    } else if c == '\n' {
        let cells: int = if st.col < 14 {
            14 - st.col
        } else {
            0
        };
        as_data(zero_bytes((6 * cells) as nat))
    } else {
        as_data(glyph(c).push(0))
    }
}

/// Effect of writing a string: its characters, one after the other.
pub open spec fn write_str_step(st: DriverView, s: Seq<char>) -> DriverView
    decreases s.len(),
{
    if s.len() == 0 {
        st
    } else {
        write_str_step(char_step(st, s[0]), s.drop_first())
    }
}

/// Unfolding a string write from the back: the state after `i + 1`
/// characters is one character step past the state after `i`.
pub proof fn lemma_write_str_step_snoc(st: DriverView, s: Seq<char>, i: int)
    requires
        0 <= i < s.len(),
    ensures
        write_str_step(st, s.take(i + 1)) == char_step(write_str_step(st, s.take(i)), s[i]),
    decreases i,
{
    if i == 0 {
        assert(s.take(1)[0] == s[0]);
        assert(s.take(1).drop_first() =~= Seq::<char>::empty());
        assert(s.take(0) =~= Seq::<char>::empty());
        assert(write_str_step(st, s.take(0)) == st);
        assert(write_str_step(char_step(st, s[0]), Seq::<char>::empty()) == char_step(st, s[0]));
        assert(write_str_step(st, s.take(1)) == write_str_step(
            char_step(st, s.take(1)[0]),
            s.take(1).drop_first(),
        ));
    } else {
        assert(s.take(i + 1)[0] == s[0]);
        assert(s.take(i)[0] == s[0]);
        assert(s.take(i + 1).drop_first() =~= s.drop_first().take(i));
        assert(s.take(i).drop_first() =~= s.drop_first().take(i - 1));
        assert(write_str_step(st, s.take(i + 1)) == write_str_step(
            char_step(st, s[0]),
            s.drop_first().take(i),
        ));
        assert(write_str_step(st, s.take(i)) == write_str_step(
            char_step(st, s[0]),
            s.drop_first().take(i - 1),
        ));
        lemma_write_str_step_snoc(char_step(st, s[0]), s.drop_first(), i - 1);
        assert(s.drop_first()[i - 1] == s[i]);
    }
}

/// A character the text view renders as a glyph cell, as opposed to the
/// control characters `\r` and `\n`.
pub open spec fn printable(c: char) -> bool {
    c != '\r' && c != '\n'
}

/// Flattened text-cursor position: the row-major cell index inside the
/// 84-cell character grid.
pub open spec fn text_index(col: u8, row: u8) -> int {
    row * 14 + col
}

/// A single cell advance adds one to the flattened position, modulo the
/// grid size, and stays inside the grid.
pub proof fn lemma_text_next_index(col: u8, row: u8)
    requires
        col < 14,
        row < 6,
    ensures
        ({
            let (a, b) = text_next(col, row);
            a < 14 && b < 6 && text_index(a, b) == (text_index(col, row) + 1) % 84
        }),
{
    if text_index(col, row) + 1 == 84 {
        vstd::arithmetic::div_mod::lemma_mod_self_0(84);
    } else {
        vstd::arithmetic::div_mod::lemma_small_mod((text_index(col, row) + 1) as nat, 84);
    }
}

/// Ring behavior of the text cursor over a run of ordinary characters:
/// each one advances the flattened cell position by exactly one, modulo the
/// 84-cell grid.
pub proof fn lemma_write_str_printable_index(st: DriverView, s: Seq<char>)
    requires
        st.col < 14,
        st.row < 6,
        forall|i: int| 0 <= i < s.len() ==> printable(#[trigger] s[i]),
    ensures
        ({
            let f = write_str_step(st, s);
            f.col < 14 && f.row < 6 && text_index(f.col, f.row) == (text_index(st.col, st.row)
                + s.len()) % 84
        }),
    decreases s.len(),
{
    if s.len() == 0 {
        vstd::arithmetic::div_mod::lemma_small_mod(text_index(st.col, st.row) as nat, 84);
    } else {
        assert(printable(s[0]));
        let st1 = char_step(st, s[0]);
        lemma_text_next_index(st.col, st.row);
        assert forall|i: int| 0 <= i < s.drop_first().len() implies printable(
            #[trigger] s.drop_first()[i],
        ) by {
            assert(s.drop_first()[i] == s[i + 1]);
        }
        lemma_write_str_printable_index(st1, s.drop_first());
        let t0 = text_index(st.col, st.row);
        let rest = s.len() - 1;
        vstd::arithmetic::div_mod::lemma_add_mod_noop_right((t0 + 1) % 84, rest, 84);
        vstd::arithmetic::div_mod::lemma_add_mod_noop_right(t0 + 1, rest % 84, 84);
        vstd::arithmetic::div_mod::lemma_add_mod_noop_right(t0 + 1, rest, 84);
    }
}

/// Wrap behavior of the text view, component form: writing `n` ordinary
/// characters moves the column to `(col + n) % 14`, and the row advances by
/// the number of completed lines, modulo the 6 rows. In particular the
/// 14th character of a line wraps the column to 0 and advances the row,
/// and wrapping past the last row returns to row 0.
pub proof fn lemma_write_str_printable_cursor(st: DriverView, s: Seq<char>)
    requires
        st.col < 14,
        st.row < 6,
        forall|i: int| 0 <= i < s.len() ==> printable(#[trigger] s[i]),
    ensures
        ({
            let f = write_str_step(st, s);
            f.col == (st.col + s.len()) % 14 && f.row == (st.row + (st.col + s.len()) / 14) % 6
        }),
{
    lemma_write_str_printable_index(st, s);
    let f = write_str_step(st, s);
    let n = s.len();
    let t = st.col + n;
    let q = st.row + t / 14;
    let r = t % 14;
    vstd::arithmetic::div_mod::lemma_fundamental_div_mod(t as int, 14);
    vstd::arithmetic::div_mod::lemma_mod_pos_bound(t as int, 14);
    assert(text_index(st.col, st.row) + n == 14 * q + r) by (nonlinear_arith)
        requires
            t == st.col + n,
            q == st.row + t / 14,
            r == t % 14,
            t == 14 * (t / 14) + r,
            text_index(st.col, st.row) == st.row * 14 + st.col,
    ;
    vstd::arithmetic::div_mod::lemma_fundamental_div_mod(q, 6);
    vstd::arithmetic::div_mod::lemma_mod_pos_bound(q, 6);
    assert(14 * q + r == 84 * (q / 6) + (14 * (q % 6) + r)) by (nonlinear_arith)
        requires
            q == 6 * (q / 6) + q % 6,
    ;
    vstd::arithmetic::div_mod::lemma_fundamental_div_mod_converse(
        14 * q + r,
        84,
        q / 6,
        14 * (q % 6) + r,
    );
    assert(text_index(f.col, f.row) == 14 * (q % 6) + r);
    // Two row-major decompositions of the same index agree componentwise.
    vstd::arithmetic::div_mod::lemma_fundamental_div_mod_converse(
        text_index(f.col, f.row),
        14,
        f.row as int,
        f.col as int,
    );
    vstd::arithmetic::div_mod::lemma_fundamental_div_mod_converse(
        text_index(f.col, f.row),
        14,
        q % 6,
        r,
    );
}


/// The text view's lockstep invariant: the DDRAM pointer sits at the start
/// of the current character cell — the pixel column is six times the cell
/// column and the bank equals the row.
pub open spec fn lockstep(st: DriverView) -> bool {
    st.x == 6 * st.col && st.y == st.row
}

/// Every character written through the text view preserves the lockstep
/// between the cell cursor and the DDRAM pointer, and keeps the cell cursor
/// on the grid.
pub proof fn lemma_char_step_lockstep(st: DriverView, c: char)
    requires
        lockstep(st),
        st.col < 14,
        st.row < 6,
    ensures
        lockstep(char_step(st, c)),
        char_step(st, c).col < 14,
        char_step(st, c).row < 6,
{
    if c == '\r' {
        // The column and the pixel column both return to zero.
    } else {
        let n: nat = if c == '\n' {
            (6 * (14 - st.col)) as nat
        } else {
            6
        };
        let bytes = if c == '\n' {
            zero_bytes(n)
        } else {
            glyph(c).push(0)
        };
        assert(glyph(c).push(0).len() == 6);
        lemma_data_run_frame(st, bytes);
        lemma_data_run_cursor(st, bytes);
        lemma_cursor_after_index(st.x, st.y, n);
        let (a, b) = cursor_after(st.x, st.y, n);
        let target = cursor_index(st.x, st.y) + n;
        if c == '\n' || st.col == 13 {
            // The run fills the rest of the 84-byte row: the pointer lands
            // exactly at the start of the next bank.
            assert(target == 84 * (st.y + 1));
            if st.y == 5 {
                vstd::arithmetic::div_mod::lemma_mod_self_0(504);
                assert(cursor_index(a, b) == 0);
                assert(84 * b + a == 0);
            } else {
                vstd::arithmetic::div_mod::lemma_small_mod(target as nat, 504);
                assert(cursor_index(a, b) == 84 * (st.y + 1));
                vstd::arithmetic::div_mod::lemma_fundamental_div_mod_converse(
                    cursor_index(a, b),
                    84,
                    b as int,
                    a as int,
                );
                vstd::arithmetic::div_mod::lemma_fundamental_div_mod_converse(
                    cursor_index(a, b),
                    84,
                    st.y + 1,
                    0,
                );
            }
        } else {
            // The pointer moves six columns within the same bank.
            assert(target == 84 * st.y + 6 * (st.col + 1));
            vstd::arithmetic::div_mod::lemma_small_mod(target as nat, 504);
            vstd::arithmetic::div_mod::lemma_fundamental_div_mod_converse(
                cursor_index(a, b),
                84,
                b as int,
                a as int,
            );
            vstd::arithmetic::div_mod::lemma_fundamental_div_mod_converse(
                cursor_index(a, b),
                84,
                st.y as int,
                6 * (st.col + 1),
            );
        }
    }
}

/// Writing any string through the text view preserves the lockstep between
/// the cell cursor and the DDRAM pointer.
pub proof fn lemma_write_str_lockstep(st: DriverView, s: Seq<char>)
    requires
        lockstep(st),
        st.col < 14,
        st.row < 6,
    ensures
        lockstep(write_str_step(st, s)),
        write_str_step(st, s).col < 14,
        write_str_step(st, s).row < 6,
    decreases s.len(),
{
    if s.len() > 0 {
        lemma_char_step_lockstep(st, s[0]);
        lemma_write_str_lockstep(char_step(st, s[0]), s.drop_first());
    }
}

impl<SPI, DC, CE, RST, LIGHT, E> PCD8544<SPI, DC, CE, RST, LIGHT> where
    SPI: SerialLink<LinkError = E>,
    DC: OutputPin<PinError = E>,
    CE: OutputPin<PinError = E>,
    RST: OutputPin<PinError = E>,
    LIGHT: OutputPin<PinError = E>,
 {
    /// Move the text cursor to the given column, issuing the matching
    /// X-address command at six pixels per character cell. An out-of-range
    /// column is silently ignored, not an error.
    pub fn set_col(&mut self, new_col: u8) -> (r: Result<(), PCDError<E>>)
        requires
            old(self).wf(),
        ensures
            final(self).wf(),
            final(self).base_log() == old(self).base_log(),
            new_col >= 14 ==> r is Ok,
            r is Ok ==> final(self)@ == set_col_step(old(self)@, new_col),
            r is Err ==> new_col < 14 && same_state_except_bus(old(self)@, final(self)@)
                && exists|k: int|
                0 <= k <= 2 && final(self)@.bus == old(self)@.bus + (#[trigger] command_events(
                    old(self)@,
                    Instruction::Xaddress((6 * new_col) as u8),
                ).subrange(0, k)),
    {
        if new_col < 14 {
            let target = new_col * 6;
            match self.write_command(Instruction::Xaddress(target)) {
                Ok(()) => {},
                Err(e) => {
                    proof {
                        let k = choose|k: int|
                            0 <= k <= 2 && self@.bus == old(self)@.bus + command_events(
                                old(self)@,
                                Instruction::Xaddress(target),
                            ).subrange(0, k);
                        assert(target == (6 * new_col) as u8);
                        assert(self@.bus == old(self)@.bus + (command_events(
                            old(self)@,
                            Instruction::Xaddress((6 * new_col) as u8),
                        ).subrange(0, k)));
                    }
                    return Err(e);
                },
            }
            let row = self.row();
            proof {
                self.lemma_wf();
            }
            self.set_text_cursor(new_col, row);
            proof {
                assert(self@ =~= set_col_step(old(self)@, new_col));
            }
            Ok(())
        } else {
            Ok(())
        }
    }

    /// Move the text cursor to the given row, issuing the matching
    /// Y-address (bank) command. An out-of-range row is silently ignored,
    /// not an error.
    pub fn set_row(&mut self, new_row: u8) -> (r: Result<(), PCDError<E>>)
        requires
            old(self).wf(),
        ensures
            final(self).wf(),
            final(self).base_log() == old(self).base_log(),
            new_row >= 6 ==> r is Ok,
            r is Ok ==> final(self)@ == set_row_step(old(self)@, new_row),
            r is Err ==> new_row < 6 && same_state_except_bus(old(self)@, final(self)@)
                && exists|k: int|
                0 <= k <= 2 && final(self)@.bus == old(self)@.bus + (#[trigger] command_events(
                    old(self)@,
                    Instruction::Yaddress(new_row),
                ).subrange(0, k)),
    {
        if new_row < 6 {
            match self.write_command(Instruction::Yaddress(new_row)) {
                Ok(()) => {},
                Err(e) => {
                    proof {
                        let k = choose|k: int|
                            0 <= k <= 2 && self@.bus == old(self)@.bus + command_events(
                                old(self)@,
                                Instruction::Yaddress(new_row),
                            ).subrange(0, k);
                        assert(self@.bus == old(self)@.bus + (command_events(
                            old(self)@,
                            Instruction::Yaddress(new_row),
                        ).subrange(0, k)));
                    }
                    return Err(e);
                },
            }
            let col = self.pos();
            proof {
                self.lemma_wf();
            }
            self.set_text_cursor(col, new_row);
            proof {
                assert(self@ =~= set_row_step(old(self)@, new_row));
            }
            Ok(())
        } else {
            Ok(())
        }
    }

    /// Move the text cursor to the given column and row, each silently
    /// ignored if out of range.
    pub fn set_position(&mut self, text_col: u8, text_row: u8) -> (r: Result<(), PCDError<E>>)
        requires
            old(self).wf(),
        ensures
            final(self).wf(),
            final(self).base_log() == old(self).base_log(),
            text_col >= 14 && text_row >= 6 ==> r is Ok,
            r is Ok ==> final(self)@ == set_row_step(set_col_step(old(self)@, text_col), text_row),
            r is Err ==> same_state_except_bus(old(self)@, final(self)@)
                || same_state_except_bus(set_col_step(old(self)@, text_col), final(self)@),
    {
        match self.set_col(text_col) {
            Ok(()) => {},
            Err(e) => {
                return Err(e);
            },
        }
        self.set_row(text_row)
    }

    /// Clear the screen: reset the text cursor to the top-left cell and
    /// zero the chip's DDRAM, which also moves the hardware write pointer
    /// and its shadow back to the origin.
    pub fn cls(&mut self) -> (r: Result<(), PCDError<E>>)
        requires
            old(self).wf(),
        ensures
            final(self).wf(),
            final(self).base_log() == old(self).base_log(),
            final(self)@.col == 0,
            final(self)@.row == 0,
            r is Ok ==> final(self)@ == (DriverView {
                col: 0,
                row: 0,
                x: 0,
                y: 0,
                extended: false,
                bus: old(self)@.bus + clear_events(old(self)@.power_down, old(self)@.vertical),
                ..old(self)@
            }),
            r is Err ==> exists|k: int|
                0 <= k <= 508 && final(self)@.bus == old(self)@.bus + clear_events(
                    old(self)@.power_down,
                    old(self)@.vertical,
                ).subrange(0, k),
    {
        self.set_text_cursor(0, 0);
        let ghost homed = self@;
        match self.hw_cls() {
            Ok(()) => {},
            Err(e) => {
                proof {
                    let k = choose|k: int|
                        0 <= k <= 508 && self@.bus == homed.bus + clear_events(
                            homed.power_down,
                            homed.vertical,
                        ).subrange(0, k);
                    assert(self@.bus == old(self)@.bus + clear_events(
                        old(self)@.power_down,
                        old(self)@.vertical,
                    ).subrange(0, k));
                }
                return Err(e);
            },
        }
        proof {
            assert(self@ =~= DriverView {
                col: 0,
                row: 0,
                x: 0,
                y: 0,
                extended: false,
                bus: old(self)@.bus + clear_events(old(self)@.power_down, old(self)@.vertical),
                ..old(self)@
            });
        }
        Ok(())
    }

    /// Render one character through the font, or handle `\r`/`\n` as the
    /// text view's control characters.
    #[verifier::loop_isolation(false)]
    pub fn write_char(&mut self, c: char) -> (r: Result<(), PCDError<E>>)
        requires
            old(self).wf(),
        ensures
            final(self).wf(),
            final(self).base_log() == old(self).base_log(),
            r is Ok ==> final(self)@ == char_step(old(self)@, c),
            r is Err ==> exists|k: int|
                0 <= k <= char_events(old(self)@, c).len() && final(self)@.bus == old(self)@.bus
                    + char_events(old(self)@, c).subrange(0, k),
    {
        if c == '\r' {
            match self.set_col(0) {
                Ok(()) => Ok(()),
                Err(e) => {
                    proof {
                        let k = choose|k: int|
                            0 <= k <= 2 && self@.bus == old(self)@.bus + command_events(
                                old(self)@,
                                Instruction::Xaddress(0),
                            ).subrange(0, k);
                        assert(self@.bus == old(self)@.bus + char_events(old(self)@, c).subrange(
                            0,
                            k,
                        ));
                    }
                    Err(e)
                },
            }
        } else if c == '\n' {
            proof {
                self.lemma_wf();
            }
            let cells = 14 - self.pos();
            let total = 6 * cells;
            let ghost bytes = zero_bytes(total as nat);
            let mut j: u8 = 0;
            while j < total
                invariant
                    j <= total,
                    self.wf(),
                    self.base_log() == old(self).base_log(),
                    self@ == data_run(old(self)@, bytes.take(j as int)),
                decreases total - j,
            {
                let ghost pre_bus = self@.bus;
                match self.write_data(0x00) {
                    Ok(()) => {},
                    Err(e) => {
                        proof {
                            lemma_data_run_bus(old(self)@, bytes.take(j as int));
                            assert(char_events(old(self)@, c) =~= as_data(bytes));
                            assert(as_data(bytes).subrange(0, j as int) =~= as_data(
                                bytes.take(j as int),
                            ));
                            assert(as_data(bytes).subrange(0, j as int + 1) =~= as_data(
                                bytes.take(j as int),
                            ).push(BusEvent::Data(0)));
                            if self@.bus == pre_bus {
                                assert(self@.bus == old(self)@.bus + char_events(
                                    old(self)@,
                                    c,
                                ).subrange(0, j as int));
                            } else {
                                assert(self@.bus =~= old(self)@.bus + char_events(
                                    old(self)@,
                                    c,
                                ).subrange(0, j as int + 1));
                            }
                        }
                        return Err(e);
                    },
                }
                proof {
                    assert(bytes.take(j as int + 1).drop_last() =~= bytes.take(j as int));
                    assert(self@ =~= data_run(old(self)@, bytes.take(j as int + 1)));
                }
                j = j + 1;
            }
            proof {
                assert(bytes.take(total as int) =~= bytes);
                lemma_data_run_frame(old(self)@, bytes);
                self.lemma_wf();
            }
            let wrapped_row = if self.row() == 5 {
                0
            } else {
                self.row() + 1
            };
            self.set_text_cursor(0, wrapped_row);
            proof {
                assert(self@ =~= char_step(old(self)@, c));
            }
            Ok(())
        } else {
            let g = char_to_bytes(c);
            let ghost bytes = glyph(c).push(0);
            let mut j: usize = 0;
            while j < 5
                invariant
                    j <= 5,
                    self.wf(),
                    self.base_log() == old(self).base_log(),
                    self@ == data_run(old(self)@, glyph(c).take(j as int)),
                decreases 5 - j,
            {
                let ghost pre_bus = self@.bus;
                match self.write_data(g[j]) {
                    Ok(()) => {},
                    Err(e) => {
                        proof {
                            lemma_data_run_bus(old(self)@, glyph(c).take(j as int));
                            assert(char_events(old(self)@, c) =~= as_data(glyph(c).push(0)));
                            assert(as_data(glyph(c).push(0)).subrange(0, j as int) =~= as_data(
                                glyph(c).take(j as int),
                            ));
                            assert(as_data(glyph(c).push(0)).subrange(0, j as int + 1) =~= as_data(
                                glyph(c).take(j as int),
                            ).push(BusEvent::Data(glyph(c)[j as int])));
                            if self@.bus == pre_bus {
                                assert(self@.bus == old(self)@.bus + char_events(
                                    old(self)@,
                                    c,
                                ).subrange(0, j as int));
                            } else {
                                assert(self@.bus =~= old(self)@.bus + char_events(
                                    old(self)@,
                                    c,
                                ).subrange(0, j as int + 1));
                            }
                        }
                        return Err(e);
                    },
                }
                proof {
                    assert(glyph(c).take(j as int + 1).drop_last() =~= glyph(c).take(j as int));
                    assert(self@ =~= data_run(old(self)@, glyph(c).take(j as int + 1)));
                }
                j = j + 1;
            }
            let ghost pre_bus = self@.bus;
            match self.write_data(0x00) {
                Ok(()) => {},
                Err(e) => {
                    proof {
                        assert(glyph(c).take(5) =~= glyph(c));
                        lemma_data_run_bus(old(self)@, glyph(c));
                        assert(char_events(old(self)@, c) =~= as_data(glyph(c).push(0)));
                        assert(as_data(glyph(c).push(0)).subrange(0, 5) =~= as_data(glyph(c)));
                        assert(as_data(glyph(c).push(0)).subrange(0, 6) =~= as_data(
                            glyph(c),
                        ).push(BusEvent::Data(0)));
                        if self@.bus == pre_bus {
                            assert(self@.bus == old(self)@.bus + char_events(
                                old(self)@,
                                c,
                            ).subrange(0, 5));
                        } else {
                            assert(self@.bus =~= old(self)@.bus + char_events(
                                old(self)@,
                                c,
                            ).subrange(0, 6));
                        }
                    }
                    return Err(e);
                },
            }
            proof {
                assert(glyph(c).take(5) =~= glyph(c));
                assert(bytes.drop_last() =~= glyph(c));
                assert(self@ =~= data_run(old(self)@, bytes));
                lemma_data_run_frame(old(self)@, bytes);
                self.lemma_wf();
            }
            let (next_col, next_row) = if self.pos() == 13 {
                (0, if self.row() == 5 {
                    0
                } else {
                    self.row() + 1
                })
            } else {
                (self.pos() + 1, self.row())
            };
            self.set_text_cursor(next_col, next_row);
            proof {
                assert(self@ =~= char_step(old(self)@, c));
            }
            Ok(())
        }
    }

    /// Write a string to the display, character by character, advancing and
    /// wrapping the text cursor teletype-style.
    ///
    /// On failure some prefix of the characters has been rendered.
    #[verifier::loop_isolation(false)]
    pub fn write_str(&mut self, s: &str) -> (r: Result<(), PCDError<E>>)
        requires
            old(self).wf(),
        ensures
            final(self).wf(),
            final(self).base_log() == old(self).base_log(),
            s@.len() == 0 ==> r is Ok && final(self)@ == old(self)@,
            r is Ok ==> final(self)@ == write_str_step(old(self)@, s@),
            r is Err ==> exists|i: int, k: int|
                0 <= i < s@.len() && 0 <= k <= char_events(
                    write_str_step(old(self)@, s@.take(i)),
                    s@[i],
                ).len() && final(self)@.bus == write_str_step(old(self)@, s@.take(i)).bus
                    + char_events(write_str_step(old(self)@, s@.take(i)), s@[i]).subrange(0, k),
    {
        let n = s.unicode_len();
        proof {
            assert(s@.skip(0) =~= s@);
            assert(s@.take(0) =~= Seq::<char>::empty());
        }
        let mut i: usize = 0;
        while i < n
            invariant
                i <= n,
                n == s@.len(),
                self.wf(),
                self.base_log() == old(self).base_log(),
                self@ == write_str_step(old(self)@, s@.take(i as int)),
                write_str_step(old(self)@, s@) == write_str_step(self@, s@.skip(i as int)),
            decreases n - i,
        {
            let c = s.get_char(i);
            let ghost before = self@;
            match self.write_char(c) {
                Ok(()) => {},
                Err(e) => {
                    proof {
                        let st_i = write_str_step(old(self)@, s@.take(i as int));
                        let k = choose|k: int|
                            0 <= k <= char_events(before, c).len() && self@.bus == before.bus
                                + char_events(before, c).subrange(0, k);
                        assert((i as int) < s@.len() && 0 <= k <= char_events(
                            st_i,
                            s@[i as int],
                        ).len() && self@.bus == st_i.bus + char_events(st_i, s@[i as int]).subrange(
                            0,
                            k,
                        ));
                    }
                    return Err(e);
                },
            }
            proof {
                assert(s@.skip(i as int)[0] == s@[i as int]);
                assert(s@.skip(i as int).drop_first() =~= s@.skip(i as int + 1));
                assert(write_str_step(before, s@.skip(i as int)) == write_str_step(
                    self@,
                    s@.skip(i as int + 1),
                ));
                lemma_write_str_step_snoc(old(self)@, s@, i as int);
            }
            i = i + 1;
        }
        proof {
            assert(s@.skip(n as int) =~= Seq::<char>::empty());
        }
        Ok(())
    }
}

} // verus!
