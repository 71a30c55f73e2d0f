//! The drawing facade: pixels, rectangles (filled and stroked) and images.

use st7735::ST7735;
use st7735::bus::BusRecord;
use st7735::bus::RecordingInterface;
use st7735::graphics::Pixel;
use st7735::graphics::RectStyle;
use st7735::graphics::Rectangle;

fn new_display() -> ST7735<RecordingInterface> {
    ST7735::new(RecordingInterface::new(), true, false, 128, 160)
}

/// The color words in every write transaction from `from` on, decoded
/// big-endian.
fn words_from(d: &ST7735<RecordingInterface>, from: usize) -> Vec<u16> {
    let mut out = Vec::new();
    for r in &d.iface.log[from..] {
        match r {
            BusRecord::Write(b) => {
                assert_eq!(b.len() % 2, 0);
                for pair in b.chunks(2) {
                    out.push(((pair[0] as u16) << 8) | pair[1] as u16);
                }
            },
            other => panic!("expected a write transaction, got {:?}", other),
        }
    }
    out
}

#[test]
fn draw_pixel_matches_set_pixel() {
    let mut a = new_display();
    a.draw_pixel(Pixel { x: 3, y: 4, color: 0x07E0 }).unwrap();
    let mut b = new_display();
    b.set_pixel(3, 4, 0x07E0).unwrap();
    assert_eq!(a.iface.log, b.iface.log);
}

#[test]
fn draw_iter_draws_each_pixel_in_order() {
    let pixels = [
        Pixel { x: 0, y: 0, color: 0x1111 },
        Pixel { x: 9, y: 5, color: 0x2222 },
    ];
    let mut d = new_display();
    d.draw_iter(&pixels).unwrap();
    assert_eq!(d.iface.log.len(), 28);
    let mut single = new_display();
    single.set_pixel(9, 5, 0x2222).unwrap();
    assert_eq!(d.iface.log[14..].to_vec(), single.iface.log);
}

#[test]
fn rectangle_fill_emits_width_times_height_fill_words() {
    // a 3-by-2 window: 6 words, all the fill color, via the buffered path
    let mut d = new_display();
    let rect = Rectangle { sx: 0, sy: 0, ex: 2, ey: 1 };
    let style = RectStyle { fill: Some(0x1234), stroke: None, stroke_width: 0 };
    d.draw_rectangle(rect, style).unwrap();
    // window (10 events), memory-write command (2), data phase (1), flushes
    assert_eq!(d.iface.log[10], BusRecord::DcLow);
    assert_eq!(d.iface.log[11], BusRecord::Write(vec![0x2C]));
    assert_eq!(d.iface.log[12], BusRecord::DcHigh);
    let words = words_from(&d, 13);
    assert_eq!(words, vec![0x1234; 6]);
}

#[test]
fn rectangle_fill_batches_through_the_buffer() {
    // a 5-by-4 window: 20 words split as one 32-byte flush and one 8-byte
    let mut d = new_display();
    let rect = Rectangle { sx: 2, sy: 3, ex: 6, ey: 6 };
    let style = RectStyle { fill: Some(0xBEEF), stroke: None, stroke_width: 0 };
    d.draw_rectangle(rect, style).unwrap();
    let flushes: Vec<usize> = d.iface.log[13..]
        .iter()
        .map(|r| match r {
            BusRecord::Write(b) => b.len(),
            other => panic!("expected a write transaction, got {:?}", other),
        })
        .collect();
    assert_eq!(flushes, vec![32, 8]);
    assert_eq!(words_from(&d, 13), vec![0xBEEF; 20]);
}

#[test]
fn rectangle_stroke_formula_picks_border_and_fill() {
    // 4-by-4, stroke width 1: the formula leaves the fill color only at the
    // indices strictly inside every border test
    let mut d = new_display();
    let rect = Rectangle { sx: 0, sy: 0, ex: 3, ey: 3 };
    let style = RectStyle { fill: Some(0x000F), stroke: Some(0x00F0), stroke_width: 1 };
    d.draw_rectangle(rect, style).unwrap();
    let words = words_from(&d, 13);
    let s = 0x00F0u16;
    let f = 0x000Fu16;
    let expected = vec![
        s, s, s, s, //
        s, s, f, s, //
        s, s, f, s, //
        s, s, s, s,
    ];
    assert_eq!(words, expected);
}

#[test]
fn rectangle_stroke_width_zero_strokes_first_column_and_edges() {
    // with stroke width 0 the formula strokes only column zero: the right
    // column and last row terms compare against bounds the index never
    // reaches
    let mut d = new_display();
    let rect = Rectangle { sx: 0, sy: 0, ex: 3, ey: 3 };
    let style = RectStyle { fill: Some(0x1111), stroke: Some(0x2222), stroke_width: 0 };
    d.draw_rectangle(rect, style).unwrap();
    let words = words_from(&d, 13);
    let s = 0x2222u16;
    let f = 0x1111u16;
    let expected = vec![
        s, f, f, f, //
        s, f, f, f, //
        s, f, f, f, //
        s, f, f, f,
    ];
    assert_eq!(words, expected);
}

#[test]
fn draw_image_tightens_window_by_one_pixel() {
    let mut d = new_display();
    let pixels: Vec<u16> = (0..12u16).collect();
    d.draw_image(1, 2, 5, 5, &pixels).unwrap();
    let expected_window = vec![
        BusRecord::DcLow,
        BusRecord::Write(vec![0x2A]),
        BusRecord::DcHigh,
        BusRecord::Write(vec![0x00, 1]),
        BusRecord::Write(vec![0x00, 4]),
        BusRecord::DcLow,
        BusRecord::Write(vec![0x2B]),
        BusRecord::DcHigh,
        BusRecord::Write(vec![0x00, 2]),
        BusRecord::Write(vec![0x00, 4]),
    ];
    assert_eq!(d.iface.log[..10].to_vec(), expected_window);
    assert_eq!(words_from(&d, 13), pixels);
}

#[test]
fn drawing_aborts_when_transport_fails_mid_rectangle() {
    let mut d = ST7735::new(RecordingInterface::failing_after(11), true, false, 128, 160);
    let rect = Rectangle { sx: 0, sy: 0, ex: 1, ey: 1 };
    let style = RectStyle { fill: Some(0xFFFF), stroke: None, stroke_width: 0 };
    assert_eq!(d.draw_rectangle(rect, style), Err(()));
    // the window was programmed and the memory-write frame began, then the
    // opcode write failed: nothing further was issued
    assert_eq!(d.iface.log.len(), 11);
    assert_eq!(d.iface.log[10], BusRecord::DcLow);
}
