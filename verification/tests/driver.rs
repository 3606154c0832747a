use pcd8544::dummypins::{RecordingLink, RecordingPin};
use pcd8544::instructions::{DisplayMode, Instruction};
use pcd8544::PCD8544;

type TestDriver = PCD8544<RecordingLink, RecordingPin, RecordingPin, RecordingPin, RecordingPin>;

fn fresh_driver() -> TestDriver {
    PCD8544::new(
        RecordingLink::new(),
        RecordingPin::new(),
        RecordingPin::new(),
        RecordingPin::new(),
        RecordingPin::new(),
    )
    .unwrap()
}

#[test]
fn new_deselects_chip_and_asserts_reset() {
    let d = fresh_driver();
    // CE driven high (idle), RST driven low (reset asserted, not released).
    assert_eq!(d.ce_pin().states(), &vec![true]);
    assert_eq!(d.rst_pin().states(), &vec![false]);
    assert_eq!(d.transport().bytes().len(), 0);
    assert_eq!(d.x(), 0);
    assert_eq!(d.y(), 0);
    assert_eq!(d.pos(), 0);
    assert_eq!(d.row(), 0);
}

#[test]
fn write_data_transmits_and_advances_cursor() {
    let mut d = fresh_driver();
    d.write_data(0xab).unwrap();
    assert_eq!(d.transport().bytes(), &vec![0xab]);
    assert_eq!((d.x(), d.y()), (1, 0));
    // DC went high for the byte and back low; CE framed it low-high.
    assert_eq!(d.dc_pin().states(), &vec![true, false]);
    assert_eq!(d.ce_pin().states(), &vec![true, false, true]);
}

#[test]
fn cursor_wraps_column_and_bank() {
    let mut d = fresh_driver();
    for _ in 0..84 {
        d.write_data(0x00).unwrap();
    }
    // One full row of 84 bytes wraps the column and advances the bank.
    assert_eq!((d.x(), d.y()), (0, 1));
    for _ in 0..420 {
        d.write_data(0x00).unwrap();
    }
    // 504 bytes in all: a full sweep of DDRAM returns to the origin.
    assert_eq!((d.x(), d.y()), (0, 0));
}

#[test]
fn cursor_counter_equivalence() {
    // The shadow cursor after N writes equals the flattened counter
    // arithmetic: x = (x0 + N) % 84, y advances by (x0 + N) / 84 mod 6.
    let mut d = fresh_driver();
    let n: u32 = 200;
    for _ in 0..n {
        d.write_data(0xff).unwrap();
    }
    assert_eq!(d.x() as u32, n % 84);
    assert_eq!(d.y() as u32, (n / 84) % 6);
}

#[test]
fn write_command_sends_mode_prefix() {
    let mut d = fresh_driver();
    // SetVop needs the extended set: prefix selects it.
    d.set_contrast(65).unwrap();
    assert_eq!(d.transport().bytes(), &vec![0x21, 0xc1]);
}

#[test]
fn basic_command_gets_basic_prefix() {
    let mut d = fresh_driver();
    d.set_display_mode(DisplayMode::InverseVideo).unwrap();
    assert_eq!(d.transport().bytes(), &vec![0x20, 0x0d]);
}

#[test]
fn write_command_tracks_address_shadow() {
    let mut d = fresh_driver();
    d.write_command(Instruction::Xaddress(40)).unwrap();
    d.write_command(Instruction::Yaddress(3)).unwrap();
    assert_eq!((d.x(), d.y()), (40, 3));
    assert_eq!(d.transport().bytes(), &vec![0x20, 0x80 | 40, 0x20, 0x43]);
}

#[test]
fn hw_cls_transmits_504_zero_data_bytes() {
    let mut d = fresh_driver();
    // Move the cursor off the origin first: the clear must not depend on it.
    d.write_data(0x55).unwrap();
    d.write_data(0x66).unwrap();
    d.hw_cls().unwrap();
    let bytes = d.transport().bytes();
    assert_eq!(bytes.len(), 2 + 504 + 4);
    for i in 2..506 {
        assert_eq!(bytes[i], 0x00);
    }
    assert_eq!(&bytes[506..], &[0x20, 0x80, 0x20, 0x40]);
    assert_eq!((d.x(), d.y()), (0, 0));
    // 504 data frames plus 2 command frames: DC toggled high-low per data
    // byte after the two initial data writes.
    let dc = d.dc_pin().states();
    assert_eq!(dc.iter().filter(|lvl| **lvl).count(), 2 + 504);
}

#[test]
fn function_set_setters_send_one_bare_byte() {
    let mut d = fresh_driver();
    d.set_power_down(true).unwrap();
    assert_eq!(d.transport().bytes(), &vec![0x24]);
    d.set_addressing_mode(true).unwrap();
    assert_eq!(d.transport().bytes(), &vec![0x24, 0x26]);
    d.set_power_down(false).unwrap();
    assert_eq!(d.transport().bytes(), &vec![0x24, 0x26, 0x22]);
}

#[test]
fn enable_extended_commands_sets_h_bit() {
    let mut d = fresh_driver();
    d.enable_extended_commands(true).unwrap();
    assert_eq!(d.transport().bytes(), &vec![0x21]);
    d.enable_extended_commands(false).unwrap();
    assert_eq!(d.transport().bytes(), &vec![0x21, 0x20]);
}

#[test]
fn backlight_is_active_low() {
    let mut d = fresh_driver();
    d.set_light(true).unwrap();
    d.set_light(false).unwrap();
    assert_eq!(d.light_pin().states(), &vec![false, true]);
}

#[test]
fn reset_pulses_rst_and_programs_init_sequence() {
    let mut d = fresh_driver();
    d.reset().unwrap();
    // Construction asserted reset (low); reset() pulses low then high.
    assert_eq!(d.rst_pin().states(), &vec![false, false, true]);
    let bytes = d.transport().bytes();
    // Six init command bytes, the 504-byte clear, two address commands.
    assert_eq!(bytes.len(), 6 + 504 + 4);
    assert_eq!(&bytes[..6], &[0x21, 0xc1, 0x06, 0x13, 0x20, 0x0c]);
    for i in 6..510 {
        assert_eq!(bytes[i], 0x00);
    }
    assert_eq!(&bytes[510..], &[0x20, 0x80, 0x20, 0x40]);
    assert_eq!((d.x(), d.y()), (0, 0));
}

#[test]
fn reset_with_contrast_programs_given_vop() {
    let mut d = fresh_driver();
    d.reset_with_contrast(56).unwrap();
    let bytes = d.transport().bytes();
    assert_eq!(&bytes[..6], &[0x21, 0x80 | 56, 0x06, 0x13, 0x20, 0x0c]);
}

#[test]
fn end_to_end_reset_then_write_hi() {
    let mut d = fresh_driver();
    d.reset().unwrap();
    d.write_str("HI").unwrap();
    let bytes = d.transport().bytes();
    // Init sequence, full clear, address reset, then 12 data bytes:
    // the 'H' and 'I' glyphs, each with its separator column.
    assert_eq!(bytes.len(), 6 + 504 + 4 + 12);
    let tail = &bytes[514..];
    assert_eq!(
        tail,
        &[0x7f, 0x08, 0x08, 0x08, 0x7f, 0x00, 0x00, 0x41, 0x7f, 0x41, 0x00, 0x00]
    );
    // The text column advanced from 0 to 2; the pixel cursor followed in
    // lockstep at six columns per cell.
    assert_eq!(d.pos(), 2);
    assert_eq!(d.row(), 0);
    assert_eq!((d.x(), d.y()), (12, 0));
}

#[test]
fn position_setters_reduce_modulo_grid() {
    let mut d = fresh_driver();
    d.set_x_position(90).unwrap();
    d.set_y_position(7).unwrap();
    // 90 % 84 == 6 and 7 % 6 == 1.
    assert_eq!((d.x(), d.y()), (6, 1));
    assert_eq!(d.transport().bytes(), &vec![0x20, 0x86, 0x20, 0x41]);
}
