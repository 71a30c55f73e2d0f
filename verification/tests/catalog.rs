//! The register catalog against the controller datasheet.

use st7735::Orientation;
use st7735::instruction::Instruction;

#[test]
fn opcode_values_match_datasheet() {
    assert_eq!(Instruction::NOP.opcode(), 0x00);
    assert_eq!(Instruction::SWRESET.opcode(), 0x01);
    assert_eq!(Instruction::RDDID.opcode(), 0x04);
    assert_eq!(Instruction::RDDST.opcode(), 0x09);
    assert_eq!(Instruction::SLPIN.opcode(), 0x10);
    assert_eq!(Instruction::SLPOUT.opcode(), 0x11);
    assert_eq!(Instruction::PTLON.opcode(), 0x12);
    assert_eq!(Instruction::NORON.opcode(), 0x13);
    assert_eq!(Instruction::INVOFF.opcode(), 0x20);
    assert_eq!(Instruction::INVON.opcode(), 0x21);
    assert_eq!(Instruction::DISPOFF.opcode(), 0x28);
    assert_eq!(Instruction::DISPON.opcode(), 0x29);
    assert_eq!(Instruction::CASET.opcode(), 0x2A);
    assert_eq!(Instruction::RASET.opcode(), 0x2B);
    assert_eq!(Instruction::RAMWR.opcode(), 0x2C);
    assert_eq!(Instruction::RAMRD.opcode(), 0x2E);
    assert_eq!(Instruction::PTLAR.opcode(), 0x30);
    assert_eq!(Instruction::COLMOD.opcode(), 0x3A);
    assert_eq!(Instruction::MADCTL.opcode(), 0x36);
    assert_eq!(Instruction::FRMCTR1.opcode(), 0xB1);
    assert_eq!(Instruction::FRMCTR2.opcode(), 0xB2);
    assert_eq!(Instruction::FRMCTR3.opcode(), 0xB3);
    assert_eq!(Instruction::INVCTR.opcode(), 0xB4);
    assert_eq!(Instruction::DISSET5.opcode(), 0xB6);
    assert_eq!(Instruction::PWCTR1.opcode(), 0xC0);
    assert_eq!(Instruction::PWCTR2.opcode(), 0xC1);
    assert_eq!(Instruction::PWCTR3.opcode(), 0xC2);
    assert_eq!(Instruction::PWCTR4.opcode(), 0xC3);
    assert_eq!(Instruction::PWCTR5.opcode(), 0xC4);
    assert_eq!(Instruction::PWCTR6.opcode(), 0xFC);
    assert_eq!(Instruction::VMCTR1.opcode(), 0xC5);
    assert_eq!(Instruction::RDID1.opcode(), 0xDA);
    assert_eq!(Instruction::RDID2.opcode(), 0xDB);
    assert_eq!(Instruction::RDID3.opcode(), 0xDC);
    assert_eq!(Instruction::RDID4.opcode(), 0xDD);
    assert_eq!(Instruction::GMCTRP1.opcode(), 0xE0);
    assert_eq!(Instruction::GMCTRN1.opcode(), 0xE1);
}

#[test]
fn orientation_base_bytes() {
    assert_eq!(Orientation::Portrait.base_byte(), 0x00);
    assert_eq!(Orientation::Landscape.base_byte(), 0x60);
    assert_eq!(Orientation::PortraitSwapped.base_byte(), 0xC0);
    assert_eq!(Orientation::LandscapeSwapped.base_byte(), 0xA0);
}
