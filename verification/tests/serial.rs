use pcd8544::bitbang::BitBangSpi;
use pcd8544::dummypins::{DummyInputPin, DummyOutputPin, RecordingLink, RecordingPin};
use pcd8544::pins::{InputPin, OutputPin};
use pcd8544::transport::{NoDelay, SerialLink};

#[test]
fn bitbang_construction_parks_clock_low() {
    let spi = BitBangSpi::new(RecordingPin::new(), RecordingPin::new()).unwrap();
    assert_eq!(spi.clk_pin().states(), &vec![false]);
    assert_eq!(spi.din_pin().states().len(), 0);
}

#[test]
fn bitbang_shifts_bits_out_msb_first() {
    let mut spi = BitBangSpi::new(RecordingPin::new(), RecordingPin::new()).unwrap();
    spi.write_byte(0xa5).unwrap();
    // 0xa5 = 1010_0101, most significant bit first on the data line.
    assert_eq!(
        spi.din_pin().states(),
        &vec![true, false, true, false, false, true, false, true]
    );
    // The clock pulsed high then low once per bit, after parking low.
    let clk = spi.clk_pin().states();
    assert_eq!(clk.len(), 1 + 16);
    for bit in 0..8 {
        assert_eq!(clk[1 + 2 * bit], true);
        assert_eq!(clk[2 + 2 * bit], false);
    }
}

#[test]
fn bitbang_transmits_byte_runs_in_order() {
    let mut spi =
        BitBangSpi::new_with_delay(RecordingPin::new(), RecordingPin::new(), NoDelay {}).unwrap();
    spi.write(&[0x80, 0x01]).unwrap();
    let din = spi.din_pin().states();
    assert_eq!(din.len(), 16);
    // 0x80: a one then seven zeroes; 0x01: seven zeroes then a one.
    assert_eq!(din[0], true);
    assert!(din[1..8].iter().all(|b| !*b));
    assert!(din[8..15].iter().all(|b| !*b));
    assert_eq!(din[15], true);
}

#[test]
fn recording_link_logs_every_byte() {
    let mut link = RecordingLink::new();
    link.write_byte(0x42).unwrap();
    link.write(&[0x01, 0x02, 0x03]).unwrap();
    assert_eq!(link.bytes(), &vec![0x42, 0x01, 0x02, 0x03]);
}

#[test]
fn recording_pin_logs_every_level() {
    let mut pin = RecordingPin::new();
    pin.set_high().unwrap();
    pin.set_low().unwrap();
    pin.set_high().unwrap();
    assert_eq!(pin.states(), &vec![true, false, true]);
}

#[test]
fn dummy_pins_accept_everything() {
    let mut out = DummyOutputPin::new();
    assert!(out.set_high().is_ok());
    assert!(out.set_low().is_ok());
    let input = DummyInputPin;
    assert_eq!(input.is_low(), Ok(true));
    assert_eq!(input.is_high(), Ok(false));
}
