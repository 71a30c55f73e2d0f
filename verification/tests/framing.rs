//! Command/data framing, word encoding, address windows, and the global
//! offset, observed through the recording interface.

use st7735::ST7735;
use st7735::bus::BusRecord;
use st7735::bus::RecordingInterface;
use st7735::instruction::Instruction;

fn new_display() -> ST7735<RecordingInterface> {
    ST7735::new(RecordingInterface::new(), true, false, 128, 160)
}

#[test]
fn command_without_params_frames_opcode_only() {
    let mut d = new_display();
    d.write_command(Instruction::SWRESET, None).unwrap();
    assert_eq!(d.iface.log, vec![BusRecord::DcLow, BusRecord::Write(vec![0x01])]);
}

#[test]
fn command_with_params_switches_to_data_phase() {
    let mut d = new_display();
    d.write_command(Instruction::INVCTR, Some(&[0x07])).unwrap();
    assert_eq!(
        d.iface.log,
        vec![
            BusRecord::DcLow,
            BusRecord::Write(vec![0xB4]),
            BusRecord::DcHigh,
            BusRecord::Write(vec![0x07]),
        ]
    );
}

#[test]
fn hard_reset_pulses_reset_line() {
    let mut d = new_display();
    d.hard_reset().unwrap();
    assert_eq!(
        d.iface.log,
        vec![
            BusRecord::RstHigh,
            BusRecord::Delay(10),
            BusRecord::RstLow,
            BusRecord::Delay(10),
            BusRecord::RstHigh,
        ]
    );
}

#[test]
fn set_pixel_emits_window_then_color() {
    let mut d = new_display();
    d.set_pixel(5, 7, 0xF800).unwrap();
    let expected = vec![
        BusRecord::DcLow,
        BusRecord::Write(vec![0x2A]),
        BusRecord::DcHigh,
        BusRecord::Write(vec![0x00, 0x05]),
        BusRecord::Write(vec![0x00, 0x05]),
        BusRecord::DcLow,
        BusRecord::Write(vec![0x2B]),
        BusRecord::DcHigh,
        BusRecord::Write(vec![0x00, 0x07]),
        BusRecord::Write(vec![0x00, 0x07]),
        BusRecord::DcLow,
        BusRecord::Write(vec![0x2C]),
        BusRecord::DcHigh,
        BusRecord::Write(vec![0xF8, 0x00]),
    ];
    assert_eq!(d.iface.log, expected);
}

#[test]
fn address_window_adds_offset_to_all_corners() {
    let mut d = new_display();
    d.set_offset(2, 3);
    d.set_address_window(5, 7, 10, 12).unwrap();
    let expected = vec![
        BusRecord::DcLow,
        BusRecord::Write(vec![0x2A]),
        BusRecord::DcHigh,
        BusRecord::Write(vec![0x00, 7]),
        BusRecord::Write(vec![0x00, 12]),
        BusRecord::DcLow,
        BusRecord::Write(vec![0x2B]),
        BusRecord::DcHigh,
        BusRecord::Write(vec![0x00, 10]),
        BusRecord::Write(vec![0x00, 15]),
    ];
    assert_eq!(d.iface.log, expected);
}

#[test]
fn address_window_words_are_big_endian() {
    let mut d = new_display();
    d.set_address_window(0x0102, 0x0304, 0x0506, 0x0708).unwrap();
    assert_eq!(d.iface.log[3], BusRecord::Write(vec![0x01, 0x02]));
    assert_eq!(d.iface.log[4], BusRecord::Write(vec![0x05, 0x06]));
    assert_eq!(d.iface.log[8], BusRecord::Write(vec![0x03, 0x04]));
    assert_eq!(d.iface.log[9], BusRecord::Write(vec![0x07, 0x08]));
}

#[test]
fn offset_replaces_previous_offset() {
    let mut d = new_display();
    d.set_offset(100, 100);
    d.set_offset(1, 2);
    d.set_address_window(0, 0, 0, 0).unwrap();
    assert_eq!(d.iface.log[3], BusRecord::Write(vec![0x00, 1]));
    assert_eq!(d.iface.log[8], BusRecord::Write(vec![0x00, 2]));
}

#[test]
fn set_pixel_aborts_at_injected_failure() {
    let mut d = ST7735::new(RecordingInterface::failing_after(3), true, false, 128, 160);
    assert_eq!(d.set_pixel(5, 7, 0xF800), Err(()));
    assert_eq!(
        d.iface.log,
        vec![BusRecord::DcLow, BusRecord::Write(vec![0x2A]), BusRecord::DcHigh]
    );
}

#[test]
fn size_reports_panel_dimensions() {
    let d = new_display();
    let s = d.size();
    assert_eq!(s.width, 128);
    assert_eq!(s.height, 160);
}

#[test]
fn largest_coordinates_fit_the_word_exactly() {
    let mut d = new_display();
    d.set_offset(0x00FF, 0x0001);
    d.set_address_window(0xFF00, 0xFFFE, 0xFF00, 0xFFFE).unwrap();
    assert_eq!(d.iface.log[3], BusRecord::Write(vec![0xFF, 0xFF]));
    assert_eq!(d.iface.log[4], BusRecord::Write(vec![0xFF, 0xFF]));
    assert_eq!(d.iface.log[8], BusRecord::Write(vec![0xFF, 0xFF]));
    assert_eq!(d.iface.log[9], BusRecord::Write(vec![0xFF, 0xFF]));
}
