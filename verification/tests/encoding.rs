use pcd8544::instructions::{DisplayMode, Instruction, MuxRate, TemperatureCoefficient};

#[test]
fn encode_nop() {
    assert_eq!(Instruction::NOP.byte(), 0x00);
}

#[test]
fn encode_function_set_family() {
    assert_eq!(Instruction::FunctionSet { pd: false, v: false, h: false }.byte(), 0x20);
    assert_eq!(Instruction::FunctionSet { pd: false, v: false, h: true }.byte(), 0x21);
    assert_eq!(Instruction::FunctionSet { pd: false, v: true, h: false }.byte(), 0x22);
    assert_eq!(Instruction::FunctionSet { pd: true, v: false, h: false }.byte(), 0x24);
    assert_eq!(Instruction::FunctionSet { pd: true, v: true, h: true }.byte(), 0x27);
}

#[test]
fn encode_display_modes() {
    assert_eq!(Instruction::SetDisplayMode(DisplayMode::DisplayBlank).byte(), 0x08);
    assert_eq!(Instruction::SetDisplayMode(DisplayMode::Normal).byte(), 0x0c);
    assert_eq!(Instruction::SetDisplayMode(DisplayMode::AllSegmentsOn).byte(), 0x09);
    assert_eq!(Instruction::SetDisplayMode(DisplayMode::InverseVideo).byte(), 0x0d);
}

#[test]
fn encode_addresses() {
    assert_eq!(Instruction::Yaddress(0).byte(), 0x40);
    assert_eq!(Instruction::Yaddress(5).byte(), 0x45);
    assert_eq!(Instruction::Xaddress(0).byte(), 0x80);
    assert_eq!(Instruction::Xaddress(83).byte(), 0x80 | 83);
}

#[test]
fn encode_temperature_coefficients() {
    assert_eq!(Instruction::SetTempCoefficient(TemperatureCoefficient::TC0).byte(), 0x04);
    assert_eq!(Instruction::SetTempCoefficient(TemperatureCoefficient::TC1).byte(), 0x05);
    assert_eq!(Instruction::SetTempCoefficient(TemperatureCoefficient::TC2).byte(), 0x06);
    assert_eq!(Instruction::SetTempCoefficient(TemperatureCoefficient::TC3).byte(), 0x07);
}

#[test]
fn encode_bias_modes() {
    assert_eq!(Instruction::SetBiasMode(MuxRate::Bias1To100).byte(), 0x10);
    assert_eq!(Instruction::SetBiasMode(MuxRate::Bias1To48).byte(), 0x13);
    assert_eq!(Instruction::SetBiasMode(MuxRate::Bias1To10).byte(), 0x17);
}

#[test]
fn encode_contrast() {
    assert_eq!(Instruction::SetVop(0).byte(), 0x80);
    assert_eq!(Instruction::SetVop(65).byte(), 0xc1);
    assert_eq!(Instruction::SetVop(127).byte(), 0xff);
}

#[test]
fn encode_is_deterministic() {
    // The encoder is a pure function: equal inputs give equal bytes.
    for vop in 0u8..=255 {
        assert_eq!(Instruction::SetVop(vop).byte(), Instruction::SetVop(vop).byte());
    }
    for x in 0u8..84 {
        assert_eq!(Instruction::Xaddress(x).byte(), Instruction::Xaddress(x).byte());
    }
}

#[test]
fn contrast_masks_to_seven_bits() {
    // Masking, not saturation: 200 encodes exactly like 200 & 0x7f == 72.
    assert_eq!(Instruction::SetVop(200).byte(), Instruction::SetVop(200 & 0x7f).byte());
    assert_eq!(Instruction::SetVop(200).byte(), Instruction::SetVop(72).byte());
    assert_eq!(Instruction::SetVop(255).byte(), Instruction::SetVop(127).byte());
    assert_eq!(Instruction::SetVop(128).byte(), Instruction::SetVop(0).byte());
}

#[test]
fn mode_reports_extended_instructions() {
    assert!(!Instruction::NOP.mode());
    assert!(!Instruction::FunctionSet { pd: false, v: false, h: true }.mode());
    assert!(!Instruction::SetDisplayMode(DisplayMode::Normal).mode());
    assert!(!Instruction::Yaddress(1).mode());
    assert!(!Instruction::Xaddress(1).mode());
    assert!(Instruction::SetTempCoefficient(TemperatureCoefficient::TC2).mode());
    assert!(Instruction::SetBiasMode(MuxRate::Bias1To48).mode());
    assert!(Instruction::SetVop(65).mode());
}
