use pcd8544::dummypins::{RecordingLink, RecordingPin};
use pcd8544::graphics::{BinaryColor, Framebuffer, Pixel};
use pcd8544::PCD8544;

type TestDriver = PCD8544<RecordingLink, RecordingPin, RecordingPin, RecordingPin, RecordingPin>;

fn fresh_graphics_driver() -> TestDriver {
    PCD8544::new(
        RecordingLink::new(),
        RecordingPin::new(),
        RecordingPin::new(),
        RecordingPin::new(),
        RecordingPin::new(),
    )
    .unwrap()
}

#[test]
fn new_framebuffer_is_blank() {
    let fb = Framebuffer::new();
    assert_eq!(fb.bytes().len(), 504);
    assert!(fb.bytes().iter().all(|b| *b == 0x00));
}

#[test]
fn clear_round_trip_through_flush() {
    let mut d = fresh_graphics_driver();
    let mut fb = Framebuffer::new();
    fb.clear(BinaryColor::On);
    d.flush(&fb).unwrap();
    // Reading back the in-memory buffer shows every byte fully lit.
    assert_eq!(fb.bytes().len(), 504);
    assert!(fb.bytes().iter().all(|b| *b == 0xff));
    // And the chip received exactly that image after the address reset.
    let bytes = d.transport().bytes();
    assert_eq!(bytes.len(), 4 + 504);
    assert!(bytes[4..].iter().all(|b| *b == 0xff));
    fb.clear(BinaryColor::Off);
    assert!(fb.bytes().iter().all(|b| *b == 0x00));
}

#[test]
fn set_pixel_maps_to_bank_and_bit() {
    let mut fb = Framebuffer::new();
    fb.set_pixel(3, 11, BinaryColor::On);
    // Row 11 lives in bank 1 (bytes 84..168), bit 11 % 8 == 3.
    assert_eq!(fb.bytes()[84 + 3], 1 << 3);
    assert!(fb.bytes().iter().enumerate().all(|(i, b)| i == 87 || *b == 0));
}

#[test]
fn set_then_clear_restores_byte_exactly() {
    let mut reference = Framebuffer::new();
    reference.set_pixel(5, 11, BinaryColor::On);
    reference.set_pixel(5, 10, BinaryColor::Off);

    let mut toggled = Framebuffer::new();
    toggled.set_pixel(5, 11, BinaryColor::On);
    toggled.set_pixel(5, 10, BinaryColor::On);
    toggled.set_pixel(5, 10, BinaryColor::Off);

    // Setting then clearing the same pixel equals clearing it alone:
    // neighbouring bits of the byte are untouched.
    assert_eq!(toggled.bytes(), reference.bytes());
}

#[test]
fn out_of_range_pixels_leave_buffer_unmodified() {
    let mut fb = Framebuffer::new();
    fb.set_pixel(84, 0, BinaryColor::On);
    fb.set_pixel(0, 48, BinaryColor::On);
    fb.set_pixel(1000, 1000, BinaryColor::On);
    assert!(fb.bytes().iter().all(|b| *b == 0x00));
}

#[test]
fn draw_iter_applies_batch_and_skips_offscreen() {
    let mut fb = Framebuffer::new();
    let pixels = vec![
        Pixel { x: 0, y: 0, color: BinaryColor::On },
        Pixel { x: -1, y: 3, color: BinaryColor::On },
        Pixel { x: 10, y: 20, color: BinaryColor::On },
        Pixel { x: 84, y: 0, color: BinaryColor::On },
        Pixel { x: 0, y: 0, color: BinaryColor::Off },
    ];
    fb.draw_iter(&pixels);

    let mut reference = Framebuffer::new();
    reference.set_pixel(0, 0, BinaryColor::On);
    reference.set_pixel(10, 20, BinaryColor::On);
    reference.set_pixel(0, 0, BinaryColor::Off);
    assert_eq!(fb.bytes(), reference.bytes());
}

#[test]
fn size_reports_fixed_dimensions() {
    let fb = Framebuffer::new();
    assert_eq!(fb.size(), (84, 48));
}

#[test]
fn flush_streams_whole_buffer_in_order() {
    let mut d = fresh_graphics_driver();
    let mut fb = Framebuffer::new();
    fb.set_pixel(0, 0, BinaryColor::On);
    fb.set_pixel(83, 47, BinaryColor::On);
    d.flush(&fb).unwrap();
    let bytes = d.transport().bytes();
    // Two address commands with their mode prefixes, then the 504 bytes.
    assert_eq!(&bytes[..4], &[0x20, 0x80, 0x20, 0x40]);
    assert_eq!(bytes.len(), 4 + 504);
    assert_eq!(bytes[4], 0x01);
    assert_eq!(bytes[4 + 503], 0x80);
    // Streaming the full memory leaves the shadow cursor at the origin.
    assert_eq!((d.x(), d.y()), (0, 0));
}
