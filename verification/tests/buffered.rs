//! The buffered word writer: transaction count, transaction sizes, and the
//! byte stream, for word counts around the 16-word buffer boundary.

use st7735::ST7735;
use st7735::bus::BusRecord;
use st7735::bus::RecordingInterface;

fn new_display() -> ST7735<RecordingInterface> {
    ST7735::new(RecordingInterface::new(), true, false, 128, 160)
}

/// The payloads of the flush transactions that follow the memory-write
/// command and the data-phase switch.
fn flushes_after_prefix(d: &ST7735<RecordingInterface>, prefix: usize) -> Vec<Vec<u8>> {
    d.iface.log[prefix..]
        .iter()
        .map(|r| match r {
            BusRecord::Write(b) => b.clone(),
            other => panic!("expected a write transaction, got {:?}", other),
        })
        .collect()
}

fn big_endian(words: &[u16]) -> Vec<u8> {
    let mut out = Vec::new();
    for w in words {
        out.push((w >> 8) as u8);
        out.push((w & 0xFF) as u8);
    }
    out
}

fn check_buffered(words: &[u16]) {
    let mut d = new_display();
    d.write_pixels_buffered(words).unwrap();
    assert_eq!(d.iface.log[0], BusRecord::DcLow);
    assert_eq!(d.iface.log[1], BusRecord::Write(vec![0x2C]));
    assert_eq!(d.iface.log[2], BusRecord::DcHigh);
    let flushes = flushes_after_prefix(&d, 3);
    // every transaction carries at most 32 bytes
    for f in &flushes {
        assert!(f.len() <= 32);
    }
    // the non-empty transactions number ceil(n / 16)
    let nonempty = flushes.iter().filter(|f| !f.is_empty()).count();
    assert_eq!(nonempty, (words.len() + 15) / 16);
    // the concatenation is the big-endian encoding of the words, in order
    let all: Vec<u8> = flushes.concat();
    assert_eq!(all, big_endian(words));
}

#[test]
fn buffered_no_words_is_one_empty_flush() {
    let mut d = new_display();
    d.write_pixels_buffered(&[]).unwrap();
    assert_eq!(
        d.iface.log,
        vec![
            BusRecord::DcLow,
            BusRecord::Write(vec![0x2C]),
            BusRecord::DcHigh,
            BusRecord::Write(vec![]),
        ]
    );
}

#[test]
fn buffered_partial_buffer_is_one_flush() {
    let words: Vec<u16> = vec![0x1122, 0x3344, 0x5566, 0x7788, 0x99AA];
    let mut d = new_display();
    d.write_pixels_buffered(&words).unwrap();
    let flushes = flushes_after_prefix(&d, 3);
    assert_eq!(flushes, vec![big_endian(&words)]);
    check_buffered(&words);
}

#[test]
fn buffered_full_buffer_flushes_then_empty_tail() {
    let words: Vec<u16> = (0..16u16).map(|i| i * 0x0101).collect();
    let mut d = new_display();
    d.write_pixels_buffered(&words).unwrap();
    let flushes = flushes_after_prefix(&d, 3);
    assert_eq!(flushes.len(), 2);
    assert_eq!(flushes[0].len(), 32);
    assert_eq!(flushes[1].len(), 0);
    check_buffered(&words);
}

#[test]
fn buffered_one_word_past_boundary() {
    let words: Vec<u16> = (0..17u16).collect();
    let mut d = new_display();
    d.write_pixels_buffered(&words).unwrap();
    let flushes = flushes_after_prefix(&d, 3);
    assert_eq!(flushes.len(), 2);
    assert_eq!(flushes[0].len(), 32);
    assert_eq!(flushes[1].len(), 2);
    check_buffered(&words);
}

#[test]
fn buffered_many_words_batches_in_order() {
    let words: Vec<u16> = (0..40u16).map(|i| 0x8000 | i).collect();
    let mut d = new_display();
    d.write_pixels_buffered(&words).unwrap();
    let flushes = flushes_after_prefix(&d, 3);
    assert_eq!(flushes.len(), 3);
    assert_eq!(flushes[0].len(), 32);
    assert_eq!(flushes[1].len(), 32);
    assert_eq!(flushes[2].len(), 16);
    check_buffered(&words);
}

#[test]
fn unbuffered_writes_one_transaction_per_color() {
    let mut d = new_display();
    d.write_pixels(&[0x0102, 0x0304, 0x0506]).unwrap();
    assert_eq!(
        d.iface.log,
        vec![
            BusRecord::DcLow,
            BusRecord::Write(vec![0x2C]),
            BusRecord::DcHigh,
            BusRecord::Write(vec![0x01, 0x02]),
            BusRecord::Write(vec![0x03, 0x04]),
            BusRecord::Write(vec![0x05, 0x06]),
        ]
    );
}

#[test]
fn set_pixels_programs_window_then_streams() {
    let mut d = new_display();
    d.set_pixels(1, 2, 2, 2, &[0xAAAA, 0xBBBB]).unwrap();
    let expected = vec![
        BusRecord::DcLow,
        BusRecord::Write(vec![0x2A]),
        BusRecord::DcHigh,
        BusRecord::Write(vec![0x00, 1]),
        BusRecord::Write(vec![0x00, 2]),
        BusRecord::DcLow,
        BusRecord::Write(vec![0x2B]),
        BusRecord::DcHigh,
        BusRecord::Write(vec![0x00, 2]),
        BusRecord::Write(vec![0x00, 2]),
        BusRecord::DcLow,
        BusRecord::Write(vec![0x2C]),
        BusRecord::DcHigh,
        BusRecord::Write(vec![0xAA, 0xAA]),
        BusRecord::Write(vec![0xBB, 0xBB]),
    ];
    assert_eq!(d.iface.log, expected);
}

#[test]
fn set_pixels_buffered_programs_window_then_batches() {
    let mut d = new_display();
    d.set_pixels_buffered(0, 0, 1, 0, &[0x1234, 0x5678]).unwrap();
    assert_eq!(d.iface.log.len(), 14);
    assert_eq!(d.iface.log[13], BusRecord::Write(vec![0x12, 0x34, 0x56, 0x78]));
}
