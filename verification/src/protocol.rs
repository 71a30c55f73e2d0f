//! Spec-level description of the controller's wire protocol: which hardware
//! events each driver operation emits.
//!
//! Every public driver method promises, in its `ensures`, that the interface
//! event log grows by exactly one of the sequences defined here (or by a
//! prefix of it, when the hardware failed part way; see
//! [`crate::bus::aborts_within`]).

use vstd::prelude::*;

use crate::bus::BusEvent;
use crate::instruction::Instruction;
use crate::instruction::opcode_spec;

verus! {

/// High byte of the big-endian encoding of a 16-bit word.
pub open spec fn word_hi(w: u16) -> u8 {
    (w / 256) as u8
}

/// Low byte of the big-endian encoding of a 16-bit word.
pub open spec fn word_lo(w: u16) -> u8 {
    (w % 256) as u8
}

/// The two bytes of a 16-bit word, most-significant first.
pub open spec fn word_bytes(w: u16) -> Seq<u8> {
    seq![word_hi(w), word_lo(w)]
}

/// Big-endian encoding of a word sequence, in order.
pub open spec fn words_bytes(ws: Seq<u16>) -> Seq<u8>
    decreases ws.len(),
{
    if ws.len() == 0 {
        Seq::empty()
    } else {
        word_bytes(ws[0]) + words_bytes(ws.drop_first())
    }
}

pub proof fn lemma_words_bytes_len(ws: Seq<u16>)
    ensures
        words_bytes(ws).len() == 2 * ws.len(),
    decreases ws.len(),
{
    if ws.len() > 0 {
        lemma_words_bytes_len(ws.drop_first());
    }
}

pub proof fn lemma_words_bytes_push(ws: Seq<u16>, w: u16)
    ensures
        words_bytes(ws.push(w)) == words_bytes(ws) + word_bytes(w),
    decreases ws.len(),
{
    if ws.len() == 0 {
        assert(ws.push(w).drop_first() =~= Seq::<u16>::empty());
        assert(words_bytes(ws.push(w)) == word_bytes(w) + words_bytes(Seq::<u16>::empty()));
        assert(words_bytes(ws.push(w)) =~= words_bytes(ws) + word_bytes(w));
    } else {
        assert(ws.push(w).drop_first() =~= ws.drop_first().push(w));
        lemma_words_bytes_push(ws.drop_first(), w);
        assert(words_bytes(ws.push(w)) =~= words_bytes(ws) + word_bytes(w));
    }
}

pub proof fn lemma_words_bytes_concat(a: Seq<u16>, b: Seq<u16>)
    ensures
        words_bytes(a + b) == words_bytes(a) + words_bytes(b),
    decreases a.len(),
{
    if a.len() == 0 {
        assert(a + b =~= b);
        assert(words_bytes(a) + words_bytes(b) =~= words_bytes(b));
    } else {
        assert((a + b).drop_first() =~= a.drop_first() + b);
        lemma_words_bytes_concat(a.drop_first(), b);
        assert(words_bytes(a + b) =~= words_bytes(a) + words_bytes(b));
    }
}

/// Events of one framed command: the data/command line goes low, the opcode
/// byte is written, and, if there are parameters, the line goes high and the
/// parameter bytes follow as one write.
pub open spec fn command_events(op: u8, params: Option<Seq<u8>>) -> Seq<BusEvent> {
    match params {
        None => seq![BusEvent::DcLow, BusEvent::Write(seq![op])],
        Some(ps) => seq![
            BusEvent::DcLow,
            BusEvent::Write(seq![op]),
            BusEvent::DcHigh,
            BusEvent::Write(ps),
        ],
    }
}

/// The hard-reset pulse: reset line high, settle, low, settle, high again.
pub open spec fn reset_events() -> Seq<BusEvent> {
    seq![
        BusEvent::RstHigh,
        BusEvent::Delay(10),
        BusEvent::RstLow,
        BusEvent::Delay(10),
        BusEvent::RstHigh,
    ]
}

/// Address-window programming: the column-address command with the two
/// offset column words, then the row-address command with the two offset row
/// words. The global offset `(dx, dy)` is added to every coordinate.
pub open spec fn window_events(sx: u16, sy: u16, ex: u16, ey: u16, dx: u16, dy: u16) -> Seq<
    BusEvent,
> {
    command_events(opcode_spec(Instruction::CASET), None) + seq![
        BusEvent::DcHigh,
        BusEvent::Write(word_bytes((sx + dx) as u16)),
        BusEvent::Write(word_bytes((ex + dx) as u16)),
    ] + command_events(opcode_spec(Instruction::RASET), None) + seq![
        BusEvent::DcHigh,
        BusEvent::Write(word_bytes((sy + dy) as u16)),
        BusEvent::Write(word_bytes((ey + dy) as u16)),
    ]
}

/// What the buffered word writer transmits: one 32-byte write per 16 words,
/// and one final write of the remaining whole words, which is empty exactly
/// when the word count is a multiple of 16.
pub open spec fn buffered_writes(ws: Seq<u16>) -> Seq<BusEvent>
    decreases ws.len(),
{
    if ws.len() < 16 {
        seq![BusEvent::Write(words_bytes(ws))]
    } else {
        seq![BusEvent::Write(words_bytes(ws.subrange(0, 16)))] + buffered_writes(ws.skip(16))
    }
}

/// Closed form of [`buffered_writes`]: `len / 16` full 16-word flushes,
/// then the flush of the remainder.
pub proof fn lemma_buffered_writes_form(ws: Seq<u16>)
    ensures
        buffered_writes(ws).len() == ws.len() / 16 + 1,
        forall|j: int|
            0 <= j < ws.len() / 16 ==> #[trigger] buffered_writes(ws)[j] == BusEvent::Write(
                words_bytes(ws.subrange(16 * j, 16 * j + 16)),
            ),
        buffered_writes(ws)[ws.len() as int / 16] == BusEvent::Write(
            words_bytes(ws.subrange(16 * (ws.len() as int / 16), ws.len() as int)),
        ),
    decreases ws.len(),
{
    if ws.len() < 16 {
        assert(ws.subrange(0, ws.len() as int) =~= ws);
    } else {
        lemma_buffered_writes_form(ws.skip(16));
        let rest = ws.skip(16);
        assert(ws.len() / 16 == rest.len() / 16 + 1);
        assert forall|j: int| 0 <= j < ws.len() / 16 implies #[trigger] buffered_writes(ws)[j]
            == BusEvent::Write(words_bytes(ws.subrange(16 * j, 16 * j + 16))) by {
            if j == 0 {
                assert(buffered_writes(ws)[0] == BusEvent::Write(
                    words_bytes(ws.subrange(0, 16)),
                ));
            } else {
                assert(buffered_writes(ws)[j] == buffered_writes(rest)[j - 1]);
                assert(rest.subrange(16 * (j - 1), 16 * (j - 1) + 16) =~= ws.subrange(
                    16 * j,
                    16 * j + 16,
                ));
            }
        }
        assert(rest.subrange(16 * (rest.len() / 16) as int, rest.len() as int) =~= ws.subrange(
            16 * (ws.len() / 16) as int,
            ws.len() as int,
        ));
    }
}

/// The bytes carried by the write transactions among the given events,
/// concatenated in order.
pub open spec fn flush_bytes(evs: Seq<BusEvent>) -> Seq<u8>
    decreases evs.len(),
{
    if evs.len() == 0 {
        Seq::empty()
    } else {
        (match evs[0] {
            BusEvent::Write(bs) => bs,
            _ => Seq::empty(),
        }) + flush_bytes(evs.drop_first())
    }
}

/// How many of the given events are non-empty write transactions.
pub open spec fn nonempty_flushes(evs: Seq<BusEvent>) -> int
    decreases evs.len(),
{
    if evs.len() == 0 {
        0
    } else {
        (match evs[0] {
            BusEvent::Write(bs) => if bs.len() > 0 {
                1int
            } else {
                0int
            },
            _ => 0int,
        }) + nonempty_flushes(evs.drop_first())
    }
}

/// LAW: for every word sequence, the buffered writer emits only write
/// transactions, each of at most 32 bytes; the non-empty transactions number
/// `ceil(len / 16)`; and the concatenation of everything transmitted is the
/// big-endian encoding of the words, in order.
pub proof fn lemma_buffered_writer_shape(ws: Seq<u16>)
    ensures
        forall|j: int|
            0 <= j < buffered_writes(ws).len() ==> ((#[trigger] buffered_writes(ws)[j]) matches
                BusEvent::Write(bs) && bs.len() <= 32),
        flush_bytes(buffered_writes(ws)) == words_bytes(ws),
        nonempty_flushes(buffered_writes(ws)) == (ws.len() + 15) / 16,
    decreases ws.len(),
{
    lemma_words_bytes_len(ws);
    if ws.len() < 16 {
        let evs = buffered_writes(ws);
        assert(evs[0] == BusEvent::Write(words_bytes(ws)));
        assert(evs.drop_first() =~= Seq::<BusEvent>::empty());
        assert(flush_bytes(evs.drop_first()) == Seq::<u8>::empty());
        assert(flush_bytes(evs) == words_bytes(ws) + Seq::<u8>::empty());
        assert(flush_bytes(evs) =~= words_bytes(ws));
        assert(nonempty_flushes(evs.drop_first()) == 0);
        if ws.len() == 0 {
            assert(nonempty_flushes(evs) == 0);
        } else {
            assert(words_bytes(ws).len() > 0);
            assert(nonempty_flushes(evs) == 1);
        }
    } else {
        let rest = ws.skip(16);
        let chunk = ws.subrange(0, 16);
        lemma_buffered_writer_shape(rest);
        lemma_words_bytes_len(chunk);
        lemma_words_bytes_concat(chunk, rest);
        assert(chunk + rest =~= ws);
        let evs = buffered_writes(ws);
        assert(evs[0] == BusEvent::Write(words_bytes(chunk)));
        assert(evs.drop_first() =~= buffered_writes(rest));
        assert(flush_bytes(evs) == words_bytes(chunk) + flush_bytes(buffered_writes(rest)));
        assert(flush_bytes(evs) =~= words_bytes(ws));
        assert(words_bytes(chunk).len() == 32);
        assert(nonempty_flushes(evs) == 1 + nonempty_flushes(buffered_writes(rest)));
        assert((ws.len() + 15) / 16 == (rest.len() + 15) / 16 + 1);
    }
}

/// One write transaction of two big-endian bytes per word, in order: the
/// unbuffered streaming path.
pub open spec fn word_write_events(ws: Seq<u16>) -> Seq<BusEvent> {
    Seq::new(ws.len(), |i: int| BusEvent::Write(word_bytes(ws[i])))
}

/// Memory-write command, data phase, then the colors streamed unbuffered.
pub open spec fn write_pixels_events(colors: Seq<u16>) -> Seq<BusEvent> {
    command_events(opcode_spec(Instruction::RAMWR), None) + seq![BusEvent::DcHigh]
        + word_write_events(colors)
}

/// Memory-write command, data phase, then the colors through the buffered
/// word writer.
pub open spec fn write_pixels_buffered_events(colors: Seq<u16>) -> Seq<BusEvent> {
    command_events(opcode_spec(Instruction::RAMWR), None) + seq![BusEvent::DcHigh]
        + buffered_writes(colors)
}

/// Address window, then the unbuffered pixel stream.
pub open spec fn set_pixels_events(
    sx: u16,
    sy: u16,
    ex: u16,
    ey: u16,
    dx: u16,
    dy: u16,
    colors: Seq<u16>,
) -> Seq<BusEvent> {
    window_events(sx, sy, ex, ey, dx, dy) + write_pixels_events(colors)
}

/// Address window, then the buffered pixel stream.
pub open spec fn set_pixels_buffered_events(
    sx: u16,
    sy: u16,
    ex: u16,
    ey: u16,
    dx: u16,
    dy: u16,
    colors: Seq<u16>,
) -> Seq<BusEvent> {
    window_events(sx, sy, ex, ey, dx, dy) + write_pixels_buffered_events(colors)
}

/// A single pixel: a one-by-one address window, the memory-write command,
/// and one color word.
pub open spec fn set_pixel_events(x: u16, y: u16, color: u16, dx: u16, dy: u16) -> Seq<BusEvent> {
    window_events(x, y, x, y, dx, dy) + command_events(opcode_spec(Instruction::RAMWR), None)
        + seq![BusEvent::DcHigh, BusEvent::Write(word_bytes(color))]
}

/// The bring-up steps before the two configuration-dependent commands:
/// hard reset, software reset and sleep-out (each with its settling delay),
/// the three frame-rate-control commands, display-inversion control, the five
/// power-control commands, and VCOM control, with the panel-tuning parameter
/// bytes fixed by the datasheet.
pub open spec fn init_head_events() -> Seq<BusEvent> {
    reset_events() + command_events(opcode_spec(Instruction::SWRESET), None) + seq![
        BusEvent::Delay(200),
    ] + command_events(opcode_spec(Instruction::SLPOUT), None) + seq![BusEvent::Delay(200)]
        + command_events(opcode_spec(Instruction::FRMCTR1), Some(seq![0x01u8, 0x2C, 0x2D]))
        + command_events(opcode_spec(Instruction::FRMCTR2), Some(seq![0x01u8, 0x2C, 0x2D]))
        + command_events(
        opcode_spec(Instruction::FRMCTR3),
        Some(seq![0x01u8, 0x2C, 0x2D, 0x01, 0x2C, 0x2D]),
    ) + command_events(opcode_spec(Instruction::INVCTR), Some(seq![0x07u8])) + command_events(
        opcode_spec(Instruction::PWCTR1),
        Some(seq![0xA2u8, 0x02, 0x84]),
    ) + command_events(opcode_spec(Instruction::PWCTR2), Some(seq![0xC5u8])) + command_events(
        opcode_spec(Instruction::PWCTR3),
        Some(seq![0x0Au8, 0x00]),
    ) + command_events(opcode_spec(Instruction::PWCTR4), Some(seq![0x8Au8, 0x2A]))
        + command_events(opcode_spec(Instruction::PWCTR5), Some(seq![0x8Au8, 0xEE]))
        + command_events(opcode_spec(Instruction::VMCTR1), Some(seq![0x0Eu8]))
}

/// The inversion command chosen by the `inverted` flag.
pub open spec fn inversion_events(inverted: bool) -> Seq<BusEvent> {
    if inverted {
        command_events(opcode_spec(Instruction::INVON), None)
    } else {
        command_events(opcode_spec(Instruction::INVOFF), None)
    }
}

/// The memory-access-control parameter selecting RGB or BGR color order.
pub open spec fn color_order_byte(rgb: bool) -> u8 {
    if rgb {
        0x00
    } else {
        0x08
    }
}

/// The memory-access-control command chosen by the `rgb` flag.
pub open spec fn color_order_events(rgb: bool) -> Seq<BusEvent> {
    command_events(opcode_spec(Instruction::MADCTL), Some(seq![color_order_byte(rgb)]))
}

/// The bring-up steps after the configuration-dependent commands: 16-bit
/// color mode, then display-on with its settling delay.
pub open spec fn init_tail_events() -> Seq<BusEvent> {
    command_events(opcode_spec(Instruction::COLMOD), Some(seq![0x05u8])) + command_events(
        opcode_spec(Instruction::DISPON),
        None,
    ) + seq![BusEvent::Delay(200)]
}

/// Everything the bring-up sequence transmits, strictly in order. The two
/// configuration flags influence nothing but the inversion command and the
/// memory-access-control parameter.
pub open spec fn init_events(rgb: bool, inverted: bool) -> Seq<BusEvent> {
    init_head_events() + inversion_events(inverted) + color_order_events(rgb)
        + init_tail_events()
}

/// LAW: two bring-up sequences with different configuration flags transmit
/// event-for-event the same thing, except at the inversion opcode (event 52)
/// and the memory-access-control parameter (event 56), which each follow
/// their own flag.
pub proof fn lemma_init_events_flag_isolation(
    rgb1: bool,
    inverted1: bool,
    rgb2: bool,
    inverted2: bool,
)
    ensures
        init_events(rgb1, inverted1).len() == 64,
        forall|k: int|
            0 <= k < 64 && k != 52 && k != 56 ==> init_events(rgb1, inverted1)[k] == init_events(
                rgb2,
                inverted2,
            )[k],
        init_events(rgb1, inverted1)[52] == BusEvent::Write(
            seq![if inverted1 { 0x21u8 } else { 0x20u8 }],
        ),
        init_events(rgb1, inverted1)[56] == BusEvent::Write(seq![color_order_byte(rgb1)]),
{
}

} // verus!
