//! The memory-access-control byte for each of the four orientation modes
//! under both color-order configurations.

use st7735::Orientation;
use st7735::ST7735;
use st7735::bus::BusRecord;
use st7735::bus::RecordingInterface;

fn transmitted_madctl(rgb: bool, orientation: &Orientation) -> u8 {
    let mut d = ST7735::new(RecordingInterface::new(), rgb, false, 128, 160);
    d.set_orientation(orientation).unwrap();
    assert_eq!(d.iface.log[0], BusRecord::DcLow);
    assert_eq!(d.iface.log[1], BusRecord::Write(vec![0x36]));
    assert_eq!(d.iface.log[2], BusRecord::DcHigh);
    match &d.iface.log[3] {
        BusRecord::Write(b) => {
            assert_eq!(b.len(), 1);
            b[0]
        },
        other => panic!("expected the parameter write, got {:?}", other),
    }
}

#[test]
fn orientation_bytes_rgb() {
    assert_eq!(transmitted_madctl(true, &Orientation::Portrait), 0x00);
    assert_eq!(transmitted_madctl(true, &Orientation::Landscape), 0x60);
    assert_eq!(transmitted_madctl(true, &Orientation::PortraitSwapped), 0xC0);
    assert_eq!(transmitted_madctl(true, &Orientation::LandscapeSwapped), 0xA0);
}

#[test]
fn orientation_bytes_bgr_set_the_color_order_bit() {
    assert_eq!(transmitted_madctl(false, &Orientation::Portrait), 0x08);
    assert_eq!(transmitted_madctl(false, &Orientation::Landscape), 0x68);
    assert_eq!(transmitted_madctl(false, &Orientation::PortraitSwapped), 0xC8);
    assert_eq!(transmitted_madctl(false, &Orientation::LandscapeSwapped), 0xA8);
}
