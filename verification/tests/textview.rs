use pcd8544::dummypins::{RecordingLink, RecordingPin};
use pcd8544::textmode::char_to_bytes;
use pcd8544::PCD8544;

type TestDriver = PCD8544<RecordingLink, RecordingPin, RecordingPin, RecordingPin, RecordingPin>;

fn fresh_text_driver() -> TestDriver {
    PCD8544::new(
        RecordingLink::new(),
        RecordingPin::new(),
        RecordingPin::new(),
        RecordingPin::new(),
        RecordingPin::new(),
    )
    .unwrap()
}

#[test]
fn font_h_and_i_glyphs() {
    assert_eq!(char_to_bytes('H'), [0x7f, 0x08, 0x08, 0x08, 0x7f]);
    assert_eq!(char_to_bytes('I'), [0x00, 0x41, 0x7f, 0x41, 0x00]);
}

#[test]
fn font_unknown_character_renders_filled_block() {
    assert_eq!(char_to_bytes('\u{263a}'), [0xff, 0xff, 0xff, 0xff, 0xff]);
}

#[test]
fn fourteenth_character_wraps_to_next_row() {
    let mut d = fresh_text_driver();
    d.write_str("AAAAAAAAAAAAAA").unwrap();
    // Exactly 14 characters: the column wraps to 0 and the row advances.
    assert_eq!(d.pos(), 0);
    assert_eq!(d.row(), 1);
    d.write_str("A").unwrap();
    // The 15th lands at the start of the new row.
    assert_eq!(d.pos(), 1);
    assert_eq!(d.row(), 1);
}

#[test]
fn wrapping_past_last_row_returns_to_top() {
    let mut d = fresh_text_driver();
    d.set_position(0, 5).unwrap();
    d.write_str("AAAAAAAAAAAAAA").unwrap();
    assert_eq!(d.pos(), 0);
    assert_eq!(d.row(), 0);
}

#[test]
fn carriage_return_resets_column_only() {
    let mut d = fresh_text_driver();
    d.write_str("AB\rC").unwrap();
    assert_eq!(d.pos(), 1);
    assert_eq!(d.row(), 0);
}

#[test]
fn newline_erases_rest_of_row() {
    let mut d = fresh_text_driver();
    d.write_str("A\n").unwrap();
    // One glyph cell (6 bytes), then 13 cells of zero padding.
    let bytes = d.transport().bytes();
    assert_eq!(bytes.len(), 6 + 13 * 6);
    for i in 6..bytes.len() {
        assert_eq!(bytes[i], 0x00);
    }
    assert_eq!(d.pos(), 0);
    assert_eq!(d.row(), 1);
    // The pixel cursor followed one full 84-byte row.
    assert_eq!((d.x(), d.y()), (0, 1));
}

#[test]
fn set_position_issues_address_commands() {
    let mut d = fresh_text_driver();
    d.set_position(3, 2).unwrap();
    assert_eq!(d.pos(), 3);
    assert_eq!(d.row(), 2);
    // The X address moves in steps of six pixels per character cell.
    assert_eq!(d.transport().bytes(), &vec![0x20, 0x80 | 18, 0x20, 0x42]);
    assert_eq!((d.x(), d.y()), (18, 2));
}

#[test]
fn out_of_range_text_position_is_ignored() {
    let mut d = fresh_text_driver();
    d.set_position(14, 6).unwrap();
    assert_eq!(d.pos(), 0);
    assert_eq!(d.row(), 0);
    assert_eq!(d.transport().bytes().len(), 0);
}

#[test]
fn cls_clears_and_homes_text_cursor() {
    let mut d = fresh_text_driver();
    d.set_position(3, 2).unwrap();
    d.cls().unwrap();
    assert_eq!(d.pos(), 0);
    assert_eq!(d.row(), 0);
    assert_eq!((d.x(), d.y()), (0, 0));
    let bytes = d.transport().bytes();
    // The position commands, then the 504-byte clear and address reset.
    assert_eq!(bytes.len(), 4 + 504 + 4);
}

#[test]
fn text_and_pixel_cursor_stay_in_lockstep() {
    let mut d = fresh_text_driver();
    d.write_str("xyz").unwrap();
    assert_eq!(d.pos(), 3);
    assert_eq!(d.x(), 18);
}

#[test]
fn lockstep_survives_control_characters() {
    let mut d = fresh_text_driver();
    d.write_str("Hello\nworld\rAB and more!").unwrap();
    // The pixel cursor stays at the start of the current character cell.
    assert_eq!(d.x(), 6 * d.pos());
    assert_eq!(d.y(), d.row());
}

#[test]
fn out_of_range_col_and_row_each_return_ok() {
    let mut d = fresh_text_driver();
    d.set_col(14).unwrap();
    d.set_col(255).unwrap();
    d.set_row(6).unwrap();
    d.set_row(255).unwrap();
    // Silently ignored: no error, no state change, nothing transmitted.
    assert_eq!(d.pos(), 0);
    assert_eq!(d.row(), 0);
    assert_eq!(d.transport().bytes().len(), 0);
}

#[test]
fn empty_string_writes_nothing() {
    let mut d = fresh_text_driver();
    d.write_str("").unwrap();
    assert_eq!(d.pos(), 0);
    assert_eq!(d.row(), 0);
    assert_eq!(d.transport().bytes().len(), 0);
}
