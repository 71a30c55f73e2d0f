//! Protocol-level driver for an ST7735 TFT display controller.
//!
//! The driver translates drawing requests (set a pixel, fill a rectangle,
//! stream pixel data into a window) into the controller's command/parameter
//! byte protocol and its power-up register sequence. The hardware itself (the
//! serial bus, the data/command and reset lines, the millisecond delay) is
//! reached through the [`bus::DisplayInterface`] capability trait, whose
//! contract records every operation in a ghost event log; every public
//! operation states exactly which events it appends to that log, and that on
//! failure it stops at the exact point of failure
//! ([`bus::aborts_within`]).

use vstd::prelude::*;

pub mod bus;
pub mod graphics;
pub mod instruction;
pub mod protocol;

use crate::bus::BusEvent;
use crate::bus::DisplayInterface;
use crate::bus::aborts_within;
use crate::bus::lemma_abort_at;
use crate::bus::lemma_abort_prefix;
use crate::instruction::Instruction;
use crate::instruction::opcode_spec;
use crate::protocol::buffered_writes;
use crate::protocol::color_order_byte;
use crate::protocol::command_events;
use crate::protocol::init_events;
use crate::protocol::lemma_buffered_writes_form;
use crate::protocol::lemma_words_bytes_len;
use crate::protocol::lemma_words_bytes_push;
use crate::protocol::reset_events;
use crate::protocol::set_pixel_events;
use crate::protocol::set_pixels_buffered_events;
use crate::protocol::set_pixels_events;
use crate::protocol::window_events;
use crate::protocol::word_bytes;
use crate::protocol::words_bytes;
use crate::protocol::write_pixels_buffered_events;
use crate::protocol::write_pixels_events;

verus! {

/// Display orientation: one of the four rotation/mirror modes.
#[derive(Clone, Copy, Debug, PartialEq, Eq)]
pub enum Orientation {
    Portrait,
    Landscape,
    PortraitSwapped,
    LandscapeSwapped,
}

/// The memory-access-control base byte of each orientation mode, per the
/// datasheet.
pub open spec fn orientation_base_spec(o: Orientation) -> u8 {
    match o {
        Orientation::Portrait => 0x00,
        Orientation::Landscape => 0x60,
        Orientation::PortraitSwapped => 0xC0,
        Orientation::LandscapeSwapped => 0xA0,
    }
}

impl Orientation {
    /// The memory-access-control base byte of this mode.
    pub fn base_byte(&self) -> (r: u8)
        ensures
            r == orientation_base_spec(*self),
    {
        match self {
            Orientation::Portrait => 0x00,
            Orientation::Landscape => 0x60,
            Orientation::PortraitSwapped => 0xC0,
            Orientation::LandscapeSwapped => 0xA0,
        }
    }
}

/// The memory-access-control byte transmitted for an orientation: the base
/// byte, with the BGR bit (`0x08`) set exactly when the color order is not
/// RGB.
pub open spec fn madctl_byte(o: Orientation, rgb: bool) -> u8 {
    if rgb {
        orientation_base_spec(o)
    } else {
        orientation_base_spec(o) | 0x08
    }
}

/// Panel dimensions in pixels.
#[derive(Clone, Copy, Debug, PartialEq, Eq)]
pub struct Size {
    pub width: u32,
    pub height: u32,
}

/// The parameter bytes of a command as the contracts see them.
pub open spec fn opt_bytes(params: Option<&[u8]>) -> Option<Seq<u8>> {
    match params {
        Some(p) => Some(p@),
        None => None,
    }
}

/// ST7735 driver. It owns its hardware interface exclusively; `rgb` and
/// `inverted` configure color order and inversion for the bring-up sequence
/// and the orientation command; `(dx, dy)` is the global offset added to
/// every window coordinate; `(width, height)` are the panel dimensions.
pub struct ST7735<IF> where IF: DisplayInterface {
    /// Hardware capability interface: bus, control lines, delay source.
    pub iface: IF,
    /// Whether the display color order is RGB (true) or BGR (false).
    pub rgb: bool,
    /// Whether the display colors are inverted.
    pub inverted: bool,
    /// Global horizontal image offset.
    pub dx: u16,
    /// Global vertical image offset.
    pub dy: u16,
    /// Panel width in pixels.
    pub width: u32,
    /// Panel height in pixels.
    pub height: u32,
}

impl<IF> ST7735<IF> where IF: DisplayInterface {
    /// Everything about the driver but the hardware log: configuration
    /// flags, global offset, and panel dimensions. Transmitting operations
    /// leave it unchanged.
    pub open spec fn config(self) -> (bool, bool, u16, u16, u32, u32) {
        (self.rgb, self.inverted, self.dx, self.dy, self.width, self.height)
    }

    /// The log of hardware operations issued through this driver's
    /// interface.
    pub open spec fn events(self) -> Seq<BusEvent> {
        self.iface.events()
    }

    /// Creates a new driver instance around the given hardware interface,
    /// with a zero global offset.
    pub fn new(iface: IF, rgb: bool, inverted: bool, width: u32, height: u32) -> (r: Self)
        ensures
            r.iface == iface,
            r.rgb == rgb,
            r.inverted == inverted,
            r.dx == 0,
            r.dy == 0,
            r.width == width,
            r.height == height,
    {
        ST7735 { iface, rgb, inverted, dx: 0, dy: 0, width, height }
    }

    /// Pulses the reset line: high, settle 10 ms, low, settle 10 ms, high.
    /// A pin failure aborts the pulse at that exact point.
    pub fn hard_reset(&mut self) -> (r: Result<(), ()>)
        ensures
            final(self).config() == old(self).config(),
            r is Ok ==> final(self).events() == old(self).events() + reset_events(),
            r is Err ==> aborts_within(old(self).events(), final(self).events(), reset_events()),
    {
        let ghost pre = self.iface.events();
        let ghost full = reset_events();
        match self.iface.rst_high() {
            Ok(_) => {},
            Err(_) => {
                proof {
                    lemma_abort_prefix(pre, self.iface.events(), full, 0);
                }
                return Err(());
            },
        }
        self.iface.delay_ms(10);
        match self.iface.rst_low() {
            Ok(_) => {},
            Err(_) => {
                proof {
                    lemma_abort_prefix(pre, self.iface.events(), full, 2);
                }
                return Err(());
            },
        }
        self.iface.delay_ms(10);
        match self.iface.rst_high() {
            Ok(_) => {},
            Err(_) => {
                proof {
                    lemma_abort_prefix(pre, self.iface.events(), full, 4);
                }
                return Err(());
            },
        }
        proof {
            assert(self.iface.events() =~= pre + full);
        }
        Ok(())
    }

    /// Frames one command: drives the data/command line low, writes the
    /// opcode byte, and, if parameters are given, drives the line high and
    /// writes them as one transaction. A failure abandons the frame at that
    /// exact point.
    pub fn write_command(&mut self, command: Instruction, params: Option<&[u8]>) -> (r: Result<
        (),
        (),
    >)
        ensures
            final(self).config() == old(self).config(),
            r is Ok ==> final(self).events() == old(self).events() + command_events(
                opcode_spec(command),
                opt_bytes(params),
            ),
            r is Err ==> aborts_within(
                old(self).events(),
                final(self).events(),
                command_events(opcode_spec(command), opt_bytes(params)),
            ),
    {
        let ghost pre = self.iface.events();
        let ghost full = command_events(opcode_spec(command), opt_bytes(params));
        match self.iface.dc_low() {
            Ok(_) => {},
            Err(_) => {
                proof {
                    lemma_abort_prefix(pre, self.iface.events(), full, 0);
                }
                return Err(());
            },
        }
        let mut op: Vec<u8> = Vec::new();
        op.push(command.opcode());
        proof {
            assert(op@ =~= seq![opcode_spec(command)]);
        }
        match self.iface.write_bytes(op.as_slice()) {
            Ok(_) => {},
            Err(_) => {
                proof {
                    lemma_abort_prefix(pre, self.iface.events(), full, 1);
                }
                return Err(());
            },
        }
        match params {
            Some(p) => {
                match self.iface.dc_high() {
                    Ok(_) => {},
                    Err(_) => {
                        proof {
                            lemma_abort_prefix(pre, self.iface.events(), full, 2);
                        }
                        return Err(());
                    },
                }
                match self.iface.write_bytes(p) {
                    Ok(_) => {},
                    Err(_) => {
                        proof {
                            lemma_abort_prefix(pre, self.iface.events(), full, 3);
                        }
                        return Err(());
                    },
                }
                proof {
                    assert(self.iface.events() =~= pre + full);
                }
                Ok(())
            },
            None => {
                proof {
                    assert(self.iface.events() =~= pre + full);
                }
                Ok(())
            },
        }
    }

    /// Switches the bus to data phase.
    fn start_data(&mut self) -> (r: Result<(), ()>)
        ensures
            final(self).config() == old(self).config(),
            r is Ok ==> final(self).events() == old(self).events().push(BusEvent::DcHigh),
            r is Err ==> final(self).events() == old(self).events(),
    {
        self.iface.dc_high()
    }

    /// Writes raw bytes, in whatever phase the bus is in, as one
    /// transaction.
    fn write_data(&mut self, data: &[u8]) -> (r: Result<(), ()>)
        ensures
            final(self).config() == old(self).config(),
            r is Ok ==> final(self).events() == old(self).events().push(BusEvent::Write(data@)),
            r is Err ==> final(self).events() == old(self).events(),
    {
        self.iface.write_bytes(data)
    }

    /// Writes one 16-bit word as its two big-endian bytes, in data phase
    /// (the caller must already have switched phase).
    fn write_word(&mut self, value: u16) -> (r: Result<(), ()>)
        ensures
            final(self).config() == old(self).config(),
            r is Ok ==> final(self).events() == old(self).events().push(
                BusEvent::Write(word_bytes(value)),
            ),
            r is Err ==> final(self).events() == old(self).events(),
    {
        let mut bytes: Vec<u8> = Vec::new();
        bytes.push((value / 256) as u8);
        bytes.push((value % 256) as u8);
        proof {
            assert(bytes@ =~= word_bytes(value));
        }
        self.write_data(bytes.as_slice())
    }

    /// Streams words through the fixed 32-byte buffer: one full transaction
    /// per 16 words as soon as the buffer fills, then one final transaction
    /// of the remaining bytes, which is empty exactly when the word count is
    /// a multiple of 16.
    #[verifier::loop_isolation(false)]
    fn write_words_buffered(&mut self, words: &[u16]) -> (r: Result<(), ()>)
        ensures
            final(self).config() == old(self).config(),
            r is Ok ==> final(self).events() == old(self).events() + buffered_writes(words@),
            r is Err ==> aborts_within(
                old(self).events(),
                final(self).events(),
                buffered_writes(words@),
            ),
    {
        let ghost pre = self.iface.events();
        let ghost ws = words@;
        let ghost full = buffered_writes(ws);
        let ghost cfg = self.config();
        proof {
            lemma_buffered_writes_form(ws);
        }
        let mut buffer: Vec<u8> = Vec::new();
        let mut i: usize = 0;
        let ghost mut k: int = 0;
        while i < words.len()
            invariant
                self.config() == cfg,
                0 <= k,
                16 * k <= i as int,
                i <= ws.len(),
                i as int - 16 * k < 16,
                buffer@ == words_bytes(ws.subrange(16 * k, i as int)),
                buffer@.len() == 2 * (i as int - 16 * k),
                k <= ws.len() as int / 16,
                self.iface.events() == pre + full.subrange(0, k),
            decreases ws.len() - i,
        {
            let w = words[i];
            buffer.push((w / 256) as u8);
            buffer.push((w % 256) as u8);
            proof {
                assert(ws.subrange(16 * k, i + 1) =~= ws.subrange(16 * k, i as int).push(
                    ws[i as int],
                ));
                lemma_words_bytes_push(ws.subrange(16 * k, i as int), ws[i as int]);
                assert(buffer@ =~= words_bytes(ws.subrange(16 * k, i + 1)));
                lemma_words_bytes_len(ws.subrange(16 * k, i + 1));
            }
            i = i + 1;
            if buffer.len() == 32 {
                proof {
                    lemma_buffered_writes_form(ws);
                    assert(16 * (k + 1) <= ws.len());
                    assert(k + 1 <= ws.len() as int / 16) by (nonlinear_arith)
                        requires
                            16 * (k + 1) <= ws.len(),
                    ;
                }
                match self.iface.write_bytes(buffer.as_slice()) {
                    Ok(_) => {},
                    Err(_) => {
                        proof {
                            lemma_abort_prefix(pre, self.iface.events(), full, k);
                        }
                        return Err(());
                    },
                }
                proof {
                    assert(buffer@ == words_bytes(ws.subrange(16 * k, 16 * k + 16)));
                    assert(full[k] == BusEvent::Write(words_bytes(ws.subrange(16 * k, 16 * k + 16))));
                    assert(self.iface.events() =~= pre + full.subrange(0, k + 1));
                    k = k + 1;
                }
                buffer.clear();
                proof {
                    assert(ws.subrange(16 * k, i as int) =~= Seq::<u16>::empty());
                    assert(buffer@ =~= words_bytes(ws.subrange(16 * k, i as int)));
                }
            }
        }
        proof {
            lemma_buffered_writes_form(ws);
            assert(k == ws.len() as int / 16) by (nonlinear_arith)
                requires
                    0 <= k,
                    16 * k <= ws.len(),
                    ws.len() as int - 16 * k < 16,
            ;
        }
        match self.iface.write_bytes(buffer.as_slice()) {
            Ok(_) => {},
            Err(_) => {
                proof {
                    lemma_abort_prefix(pre, self.iface.events(), full, k);
                }
                return Err(());
            },
        }
        proof {
            assert(full[k] == BusEvent::Write(words_bytes(ws.subrange(16 * k, ws.len() as int))));
            assert(buffer@ == words_bytes(ws.subrange(16 * k, ws.len() as int)));
            assert(self.iface.events() =~= pre + full);
        }
        Ok(())
    }

    /// Writes the memory-access-control byte for the requested orientation:
    /// the mode's base byte, with the BGR bit set when the configured color
    /// order is not RGB.
    pub fn set_orientation(&mut self, orientation: &Orientation) -> (r: Result<(), ()>)
        ensures
            final(self).config() == old(self).config(),
            r is Ok ==> final(self).events() == old(self).events() + command_events(
                opcode_spec(Instruction::MADCTL),
                Some(seq![madctl_byte(*orientation, old(self).rgb)]),
            ),
            r is Err ==> aborts_within(
                old(self).events(),
                final(self).events(),
                command_events(
                    opcode_spec(Instruction::MADCTL),
                    Some(seq![madctl_byte(*orientation, old(self).rgb)]),
                ),
            ),
    {
        let base = orientation.base_byte();
        let value = if self.rgb {
            base
        } else {
            base | 0x08
        };
        proof {
            assert(value == madctl_byte(*orientation, old(self).rgb));
        }
        let mut params: Vec<u8> = Vec::new();
        params.push(value);
        proof {
            assert(params@ =~= seq![madctl_byte(*orientation, old(self).rgb)]);
        }
        self.write_command(Instruction::MADCTL, Some(params.as_slice()))
    }

    /// Replaces the global offset of the displayed image. It applies to
    /// every subsequent addressing call; nothing is transmitted.
    pub fn set_offset(&mut self, dx: u16, dy: u16)
        ensures
            final(self).dx == dx,
            final(self).dy == dy,
            final(self).rgb == old(self).rgb,
            final(self).inverted == old(self).inverted,
            final(self).width == old(self).width,
            final(self).height == old(self).height,
            final(self).events() == old(self).events(),
    {
        self.dx = dx;
        self.dy = dy;
    }

    /// Programs the controller's address window: the column-address command
    /// with words `(sx+dx, ex+dx)`, then the row-address command with words
    /// `(sy+dy, ey+dy)`. The corners are forwarded verbatim; no bounds check
    /// against the panel dimensions is made, but each offset sum must fit in
    /// a word.
    pub fn set_address_window(&mut self, sx: u16, sy: u16, ex: u16, ey: u16) -> (r: Result<(), ()>)
        requires
            sx + old(self).dx <= u16::MAX,
            ex + old(self).dx <= u16::MAX,
            sy + old(self).dy <= u16::MAX,
            ey + old(self).dy <= u16::MAX,
        ensures
            final(self).config() == old(self).config(),
            r is Ok ==> final(self).events() == old(self).events() + window_events(
                sx,
                sy,
                ex,
                ey,
                old(self).dx,
                old(self).dy,
            ),
            r is Err ==> aborts_within(
                old(self).events(),
                final(self).events(),
                window_events(sx, sy, ex, ey, old(self).dx, old(self).dy),
            ),
    {
        let ghost pre = self.iface.events();
        let ghost full = window_events(sx, sy, ex, ey, self.dx, self.dy);
        match self.write_command(Instruction::CASET, None) {
            Ok(_) => {
                proof {
                    assert(self.iface.events() =~= pre + full.subrange(0, 2));
                }
            },
            Err(_) => {
                proof {
                    let step = command_events(opcode_spec(Instruction::CASET), None);
                    assert(pre + full.subrange(0, 0) =~= pre);
                    assert(step =~= full.subrange(0, 2));
                    lemma_abort_at(pre, self.iface.events(), full, 0, step);
                }
                return Err(());
            },
        }
        match self.start_data() {
            Ok(_) => {
                proof {
                    assert(self.iface.events() =~= pre + full.subrange(0, 3));
                }
            },
            Err(_) => {
                proof {
                    lemma_abort_prefix(pre, self.iface.events(), full, 2);
                }
                return Err(());
            },
        }
        match self.write_word(sx + self.dx) {
            Ok(_) => {
                proof {
                    assert(self.iface.events() =~= pre + full.subrange(0, 4));
                }
            },
            Err(_) => {
                proof {
                    lemma_abort_prefix(pre, self.iface.events(), full, 3);
                }
                return Err(());
            },
        }
        match self.write_word(ex + self.dx) {
            Ok(_) => {
                proof {
                    assert(self.iface.events() =~= pre + full.subrange(0, 5));
                }
            },
            Err(_) => {
                proof {
                    lemma_abort_prefix(pre, self.iface.events(), full, 4);
                }
                return Err(());
            },
        }
        match self.write_command(Instruction::RASET, None) {
            Ok(_) => {
                proof {
                    assert(self.iface.events() =~= pre + full.subrange(0, 7));
                }
            },
            Err(_) => {
                proof {
                    let step = command_events(opcode_spec(Instruction::RASET), None);
                    assert(step =~= full.subrange(5, 7));
                    lemma_abort_at(pre, self.iface.events(), full, 5, step);
                }
                return Err(());
            },
        }
        match self.start_data() {
            Ok(_) => {
                proof {
                    assert(self.iface.events() =~= pre + full.subrange(0, 8));
                }
            },
            Err(_) => {
                proof {
                    lemma_abort_prefix(pre, self.iface.events(), full, 7);
                }
                return Err(());
            },
        }
        match self.write_word(sy + self.dy) {
            Ok(_) => {
                proof {
                    assert(self.iface.events() =~= pre + full.subrange(0, 9));
                }
            },
            Err(_) => {
                proof {
                    lemma_abort_prefix(pre, self.iface.events(), full, 8);
                }
                return Err(());
            },
        }
        match self.write_word(ey + self.dy) {
            Ok(_) => {
                proof {
                    assert(self.iface.events() =~= pre + full);
                }
                Ok(())
            },
            Err(_) => {
                proof {
                    lemma_abort_prefix(pre, self.iface.events(), full, 9);
                }
                Err(())
            },
        }
    }

    /// Sets a single pixel: a one-by-one address window at `(x, y)`, the
    /// memory-write command, then the color word.
    pub fn set_pixel(&mut self, x: u16, y: u16, color: u16) -> (r: Result<(), ()>)
        requires
            x + old(self).dx <= u16::MAX,
            y + old(self).dy <= u16::MAX,
        ensures
            final(self).config() == old(self).config(),
            r is Ok ==> final(self).events() == old(self).events() + set_pixel_events(
                x,
                y,
                color,
                old(self).dx,
                old(self).dy,
            ),
            r is Err ==> aborts_within(
                old(self).events(),
                final(self).events(),
                set_pixel_events(x, y, color, old(self).dx, old(self).dy),
            ),
    {
        let ghost pre = self.iface.events();
        let ghost full = set_pixel_events(x, y, color, self.dx, self.dy);
        match self.set_address_window(x, y, x, y) {
            Ok(_) => {
                proof {
                    assert(self.iface.events() =~= pre + full.subrange(0, 10));
                }
            },
            Err(_) => {
                proof {
                    let step = window_events(x, y, x, y, old(self).dx, old(self).dy);
                    assert(pre + full.subrange(0, 0) =~= pre);
                    assert(step =~= full.subrange(0, 10));
                    lemma_abort_at(pre, self.iface.events(), full, 0, step);
                }
                return Err(());
            },
        }
        match self.write_command(Instruction::RAMWR, None) {
            Ok(_) => {
                proof {
                    assert(self.iface.events() =~= pre + full.subrange(0, 12));
                }
            },
            Err(_) => {
                proof {
                    let step = command_events(opcode_spec(Instruction::RAMWR), None);
                    assert(step =~= full.subrange(10, 12));
                    lemma_abort_at(pre, self.iface.events(), full, 10, step);
                }
                return Err(());
            },
        }
        match self.start_data() {
            Ok(_) => {
                proof {
                    assert(self.iface.events() =~= pre + full.subrange(0, 13));
                }
            },
            Err(_) => {
                proof {
                    lemma_abort_prefix(pre, self.iface.events(), full, 12);
                }
                return Err(());
            },
        }
        match self.write_word(color) {
            Ok(_) => {
                proof {
                    assert(self.iface.events() =~= pre + full);
                }
                Ok(())
            },
            Err(_) => {
                proof {
                    lemma_abort_prefix(pre, self.iface.events(), full, 13);
                }
                Err(())
            },
        }
    }

    /// Streams pixel colors into the current drawing window, unbuffered: the
    /// memory-write command, then one two-byte transaction per color. The
    /// caller must already have set the window; whether the count matches the
    /// window is not checked.
    #[verifier::loop_isolation(false)]
    pub fn write_pixels(&mut self, colors: &[u16]) -> (r: Result<(), ()>)
        ensures
            final(self).config() == old(self).config(),
            r is Ok ==> final(self).events() == old(self).events() + write_pixels_events(colors@),
            r is Err ==> aborts_within(
                old(self).events(),
                final(self).events(),
                write_pixels_events(colors@),
            ),
    {
        let ghost pre = self.iface.events();
        let ghost full = write_pixels_events(colors@);
        let ghost cfg = self.config();
        match self.write_command(Instruction::RAMWR, None) {
            Ok(_) => {
                proof {
                    assert(self.iface.events() =~= pre + full.subrange(0, 2));
                }
            },
            Err(_) => {
                proof {
                    let step = command_events(opcode_spec(Instruction::RAMWR), None);
                    assert(pre + full.subrange(0, 0) =~= pre);
                    assert(step =~= full.subrange(0, 2));
                    lemma_abort_at(pre, self.iface.events(), full, 0, step);
                }
                return Err(());
            },
        }
        match self.start_data() {
            Ok(_) => {
                proof {
                    assert(self.iface.events() =~= pre + full.subrange(0, 3));
                }
            },
            Err(_) => {
                proof {
                    lemma_abort_prefix(pre, self.iface.events(), full, 2);
                }
                return Err(());
            },
        }
        let mut i: usize = 0;
        while i < colors.len()
            invariant
                self.config() == cfg,
                i <= colors@.len(),
                full == write_pixels_events(colors@),
                self.iface.events() == pre + full.subrange(0, 3 + i as int),
            decreases colors@.len() - i,
        {
            match self.write_word(colors[i]) {
                Ok(_) => {},
                Err(_) => {
                    proof {
                        lemma_abort_prefix(pre, self.iface.events(), full, 3 + i as int);
                    }
                    return Err(());
                },
            }
            i = i + 1;
            proof {
                assert(self.iface.events() =~= pre + full.subrange(0, 3 + i as int));
            }
        }
        proof {
            assert(self.iface.events() =~= pre + full);
        }
        Ok(())
    }

    /// Streams pixel colors into the current drawing window through the
    /// buffered word writer: the memory-write command, then batched
    /// transactions of at most 32 bytes.
    pub fn write_pixels_buffered(&mut self, colors: &[u16]) -> (r: Result<(), ()>)
        ensures
            final(self).config() == old(self).config(),
            r is Ok ==> final(self).events() == old(self).events() + write_pixels_buffered_events(
                colors@,
            ),
            r is Err ==> aborts_within(
                old(self).events(),
                final(self).events(),
                write_pixels_buffered_events(colors@),
            ),
    {
        let ghost pre = self.iface.events();
        let ghost full = write_pixels_buffered_events(colors@);
        match self.write_command(Instruction::RAMWR, None) {
            Ok(_) => {
                proof {
                    assert(self.iface.events() =~= pre + full.subrange(0, 2));
                }
            },
            Err(_) => {
                proof {
                    let step = command_events(opcode_spec(Instruction::RAMWR), None);
                    assert(pre + full.subrange(0, 0) =~= pre);
                    assert(step =~= full.subrange(0, 2));
                    lemma_abort_at(pre, self.iface.events(), full, 0, step);
                }
                return Err(());
            },
        }
        match self.start_data() {
            Ok(_) => {
                proof {
                    assert(self.iface.events() =~= pre + full.subrange(0, 3));
                }
            },
            Err(_) => {
                proof {
                    lemma_abort_prefix(pre, self.iface.events(), full, 2);
                }
                return Err(());
            },
        }
        match self.write_words_buffered(colors) {
            Ok(_) => {
                proof {
                    assert(self.iface.events() =~= pre + full);
                }
                Ok(())
            },
            Err(_) => {
                proof {
                    let step = buffered_writes(colors@);
                    assert(step =~= full.subrange(3, full.len() as int));
                    lemma_abort_at(pre, self.iface.events(), full, 3, step);
                }
                Err(())
            },
        }
    }

    /// Sets the address window, then streams the colors into it unbuffered.
    pub fn set_pixels(&mut self, sx: u16, sy: u16, ex: u16, ey: u16, colors: &[u16]) -> (r: Result<
        (),
        (),
    >)
        requires
            sx + old(self).dx <= u16::MAX,
            ex + old(self).dx <= u16::MAX,
            sy + old(self).dy <= u16::MAX,
            ey + old(self).dy <= u16::MAX,
        ensures
            final(self).config() == old(self).config(),
            r is Ok ==> final(self).events() == old(self).events() + set_pixels_events(
                sx,
                sy,
                ex,
                ey,
                old(self).dx,
                old(self).dy,
                colors@,
            ),
            r is Err ==> aborts_within(
                old(self).events(),
                final(self).events(),
                set_pixels_events(sx, sy, ex, ey, old(self).dx, old(self).dy, colors@),
            ),
    {
        let ghost pre = self.iface.events();
        let ghost full = set_pixels_events(sx, sy, ex, ey, self.dx, self.dy, colors@);
        match self.set_address_window(sx, sy, ex, ey) {
            Ok(_) => {
                proof {
                    assert(self.iface.events() =~= pre + full.subrange(0, 10));
                }
            },
            Err(_) => {
                proof {
                    let step = window_events(sx, sy, ex, ey, old(self).dx, old(self).dy);
                    assert(pre + full.subrange(0, 0) =~= pre);
                    assert(step =~= full.subrange(0, 10));
                    lemma_abort_at(pre, self.iface.events(), full, 0, step);
                }
                return Err(());
            },
        }
        match self.write_pixels(colors) {
            Ok(_) => {
                proof {
                    assert(self.iface.events() =~= pre + full);
                }
                Ok(())
            },
            Err(_) => {
                proof {
                    let step = write_pixels_events(colors@);
                    assert(step =~= full.subrange(10, full.len() as int));
                    lemma_abort_at(pre, self.iface.events(), full, 10, step);
                }
                Err(())
            },
        }
    }

    /// Sets the address window, then streams the colors into it through the
    /// buffered word writer.
    pub fn set_pixels_buffered(
        &mut self,
        sx: u16,
        sy: u16,
        ex: u16,
        ey: u16,
        colors: &[u16],
    ) -> (r: Result<(), ()>)
        requires
            sx + old(self).dx <= u16::MAX,
            ex + old(self).dx <= u16::MAX,
            sy + old(self).dy <= u16::MAX,
            ey + old(self).dy <= u16::MAX,
        ensures
            final(self).config() == old(self).config(),
            r is Ok ==> final(self).events() == old(self).events() + set_pixels_buffered_events(
                sx,
                sy,
                ex,
                ey,
                old(self).dx,
                old(self).dy,
                colors@,
            ),
            r is Err ==> aborts_within(
                old(self).events(),
                final(self).events(),
                set_pixels_buffered_events(sx, sy, ex, ey, old(self).dx, old(self).dy, colors@),
            ),
    {
        let ghost pre = self.iface.events();
        let ghost full = set_pixels_buffered_events(sx, sy, ex, ey, self.dx, self.dy, colors@);
        match self.set_address_window(sx, sy, ex, ey) {
            Ok(_) => {
                proof {
                    assert(self.iface.events() =~= pre + full.subrange(0, 10));
                }
            },
            Err(_) => {
                proof {
                    let step = window_events(sx, sy, ex, ey, old(self).dx, old(self).dy);
                    assert(pre + full.subrange(0, 0) =~= pre);
                    assert(step =~= full.subrange(0, 10));
                    lemma_abort_at(pre, self.iface.events(), full, 0, step);
                }
                return Err(());
            },
        }
        match self.write_pixels_buffered(colors) {
            Ok(_) => {
                proof {
                    assert(self.iface.events() =~= pre + full);
                }
                Ok(())
            },
            Err(_) => {
                proof {
                    let step = write_pixels_buffered_events(colors@);
                    assert(step =~= full.subrange(10, full.len() as int));
                    lemma_abort_at(pre, self.iface.events(), full, 10, step);
                }
                Err(())
            },
        }
    }

    /// Returns the panel dimensions.
    pub fn size(&self) -> (r: Size)
        ensures
            r.width == self.width,
            r.height == self.height,
    {
        Size { width: self.width, height: self.height }
    }

    /// One command step of the bring-up sequence: `full` is the whole
    /// sequence, `done` the number of its events already emitted, and this
    /// command's events are the next slice of it.
    fn init_cmd(
        &mut self,
        command: Instruction,
        params: Option<&[u8]>,
        Ghost(pre): Ghost<Seq<BusEvent>>,
        Ghost(full): Ghost<Seq<BusEvent>>,
        Ghost(done): Ghost<int>,
    ) -> (r: Result<(), ()>)
        requires
            0 <= done,
            done + command_events(opcode_spec(command), opt_bytes(params)).len() <= full.len(),
            command_events(opcode_spec(command), opt_bytes(params)) == full.subrange(
                done,
                done + command_events(opcode_spec(command), opt_bytes(params)).len() as int,
            ),
            old(self).events() == pre + full.subrange(0, done),
        ensures
            final(self).config() == old(self).config(),
            r is Ok ==> final(self).events() == pre + full.subrange(
                0,
                done + command_events(opcode_spec(command), opt_bytes(params)).len(),
            ),
            r is Err ==> aborts_within(pre, final(self).events(), full),
    {
        let ghost step = command_events(opcode_spec(command), opt_bytes(params));
        match self.write_command(command, params) {
            Ok(_) => {
                proof {
                    assert(self.iface.events() =~= pre + full.subrange(
                        0,
                        done + step.len() as int,
                    ));
                }
                Ok(())
            },
            Err(_) => {
                proof {
                    lemma_abort_at(pre, self.iface.events(), full, done, step);
                }
                Err(())
            },
        }
    }

    /// One settling delay of the bring-up sequence.
    fn init_delay(
        &mut self,
        ms: u8,
        Ghost(pre): Ghost<Seq<BusEvent>>,
        Ghost(full): Ghost<Seq<BusEvent>>,
        Ghost(done): Ghost<int>,
    )
        requires
            0 <= done,
            done + 1 <= full.len(),
            full[done] == BusEvent::Delay(ms),
            old(self).events() == pre + full.subrange(0, done),
        ensures
            final(self).config() == old(self).config(),
            final(self).events() == pre + full.subrange(0, done + 1),
    {
        self.iface.delay_ms(ms);
        proof {
            assert(self.iface.events() =~= pre + full.subrange(0, done + 1));
        }
    }

    /// Runs the bring-up sequence: hard reset, software reset and sleep-out
    /// with their settling delays, the fixed panel-tuning commands, the
    /// inversion command chosen by `inverted`, the color-order parameter
    /// chosen by `rgb`, 16-bit color mode, and display-on. Any failure aborts
    /// the remainder at that exact step and is surfaced; the display is then
    /// in an undefined, partially initialized state.
    #[verifier::rlimit(100)]
    pub fn init(&mut self) -> (r: Result<(), ()>)
        ensures
            final(self).config() == old(self).config(),
            r is Ok ==> final(self).events() == old(self).events() + init_events(
                old(self).rgb,
                old(self).inverted,
            ),
            r is Err ==> aborts_within(
                old(self).events(),
                final(self).events(),
                init_events(old(self).rgb, old(self).inverted),
            ),
    {
        let ghost pre = self.iface.events();
        let ghost full = init_events(self.rgb, self.inverted);
        match self.hard_reset() {
            Ok(_) => {
                proof {
                    assert(self.iface.events() =~= pre + full.subrange(0, 5));
                }
            },
            Err(_) => {
                proof {
                    assert(pre + full.subrange(0, 0) =~= pre);
                    assert(reset_events() =~= full.subrange(0, 5));
                    lemma_abort_at(pre, self.iface.events(), full, 0, reset_events());
                }
                return Err(());
            },
        }
        proof {
            assert(command_events(opcode_spec(Instruction::SWRESET), None) =~= full.subrange(5, 7));
        }
        self.init_cmd(Instruction::SWRESET, None, Ghost(pre), Ghost(full), Ghost(5))?;
        proof {
            assert(full[7] == BusEvent::Delay(200));
        }
        self.init_delay(200, Ghost(pre), Ghost(full), Ghost(7));
        proof {
            assert(command_events(opcode_spec(Instruction::SLPOUT), None) =~= full.subrange(8, 10));
        }
        self.init_cmd(Instruction::SLPOUT, None, Ghost(pre), Ghost(full), Ghost(8))?;
        proof {
            assert(full[10] == BusEvent::Delay(200));
        }
        self.init_delay(200, Ghost(pre), Ghost(full), Ghost(10));
        let p = params3(0x01, 0x2C, 0x2D);
        proof {
            assert(command_events(opcode_spec(Instruction::FRMCTR1), Some(p@)) =~= full.subrange(
                11,
                15,
            ));
        }
        self.init_cmd(Instruction::FRMCTR1, Some(p.as_slice()), Ghost(pre), Ghost(full), Ghost(11))?;
        let p = params3(0x01, 0x2C, 0x2D);
        proof {
            assert(command_events(opcode_spec(Instruction::FRMCTR2), Some(p@)) =~= full.subrange(
                15,
                19,
            ));
        }
        self.init_cmd(Instruction::FRMCTR2, Some(p.as_slice()), Ghost(pre), Ghost(full), Ghost(15))?;
        let p = params6(0x01, 0x2C, 0x2D, 0x01, 0x2C, 0x2D);
        proof {
            assert(command_events(opcode_spec(Instruction::FRMCTR3), Some(p@)) =~= full.subrange(
                19,
                23,
            ));
        }
        self.init_cmd(Instruction::FRMCTR3, Some(p.as_slice()), Ghost(pre), Ghost(full), Ghost(19))?;
        let p = params1(0x07);
        proof {
            assert(command_events(opcode_spec(Instruction::INVCTR), Some(p@)) =~= full.subrange(
                23,
                27,
            ));
        }
        self.init_cmd(Instruction::INVCTR, Some(p.as_slice()), Ghost(pre), Ghost(full), Ghost(23))?;
        let p = params3(0xA2, 0x02, 0x84);
        proof {
            assert(command_events(opcode_spec(Instruction::PWCTR1), Some(p@)) =~= full.subrange(
                27,
                31,
            ));
        }
        self.init_cmd(Instruction::PWCTR1, Some(p.as_slice()), Ghost(pre), Ghost(full), Ghost(27))?;
        let p = params1(0xC5);
        proof {
            assert(command_events(opcode_spec(Instruction::PWCTR2), Some(p@)) =~= full.subrange(
                31,
                35,
            ));
        }
        self.init_cmd(Instruction::PWCTR2, Some(p.as_slice()), Ghost(pre), Ghost(full), Ghost(31))?;
        let p = params2(0x0A, 0x00);
        proof {
            assert(command_events(opcode_spec(Instruction::PWCTR3), Some(p@)) =~= full.subrange(
                35,
                39,
            ));
        }
        self.init_cmd(Instruction::PWCTR3, Some(p.as_slice()), Ghost(pre), Ghost(full), Ghost(35))?;
        let p = params2(0x8A, 0x2A);
        proof {
            assert(command_events(opcode_spec(Instruction::PWCTR4), Some(p@)) =~= full.subrange(
                39,
                43,
            ));
        }
        self.init_cmd(Instruction::PWCTR4, Some(p.as_slice()), Ghost(pre), Ghost(full), Ghost(39))?;
        let p = params2(0x8A, 0xEE);
        proof {
            assert(command_events(opcode_spec(Instruction::PWCTR5), Some(p@)) =~= full.subrange(
                43,
                47,
            ));
        }
        self.init_cmd(Instruction::PWCTR5, Some(p.as_slice()), Ghost(pre), Ghost(full), Ghost(43))?;
        let p = params1(0x0E);
        proof {
            assert(command_events(opcode_spec(Instruction::VMCTR1), Some(p@)) =~= full.subrange(
                47,
                51,
            ));
        }
        self.init_cmd(Instruction::VMCTR1, Some(p.as_slice()), Ghost(pre), Ghost(full), Ghost(47))?;
        if self.inverted {
            proof {
                assert(command_events(opcode_spec(Instruction::INVON), None) =~= full.subrange(
                    51,
                    53,
                ));
            }
            self.init_cmd(Instruction::INVON, None, Ghost(pre), Ghost(full), Ghost(51))?;
        } else {
            proof {
                assert(command_events(opcode_spec(Instruction::INVOFF), None) =~= full.subrange(
                    51,
                    53,
                ));
            }
            self.init_cmd(Instruction::INVOFF, None, Ghost(pre), Ghost(full), Ghost(51))?;
        }
        let color_order = if self.rgb {
            0x00
        } else {
            0x08
        };
        proof {
            assert(color_order == color_order_byte(old(self).rgb));
        }
        let p = params1(color_order);
        proof {
            assert(command_events(opcode_spec(Instruction::MADCTL), Some(p@)) =~= full.subrange(
                53,
                57,
            ));
        }
        self.init_cmd(Instruction::MADCTL, Some(p.as_slice()), Ghost(pre), Ghost(full), Ghost(53))?;
        let p = params1(0x05);
        proof {
            assert(command_events(opcode_spec(Instruction::COLMOD), Some(p@)) =~= full.subrange(
                57,
                61,
            ));
        }
        self.init_cmd(Instruction::COLMOD, Some(p.as_slice()), Ghost(pre), Ghost(full), Ghost(57))?;
        proof {
            assert(command_events(opcode_spec(Instruction::DISPON), None) =~= full.subrange(
                61,
                63,
            ));
        }
        self.init_cmd(Instruction::DISPON, None, Ghost(pre), Ghost(full), Ghost(61))?;
        proof {
            assert(full[63] == BusEvent::Delay(200));
        }
        self.init_delay(200, Ghost(pre), Ghost(full), Ghost(63));
        proof {
            assert(self.iface.events() =~= pre + full);
        }
        Ok(())
    }
}

/// Builds a one-byte parameter list.
fn params1(a: u8) -> (v: Vec<u8>)
    ensures
        v@ == seq![a],
{
    let mut v: Vec<u8> = Vec::new();
    v.push(a);
    proof {
        assert(v@ =~= seq![a]);
    }
    v
}

/// Builds a two-byte parameter list.
fn params2(a: u8, b: u8) -> (v: Vec<u8>)
    ensures
        v@ == seq![a, b],
{
    let mut v: Vec<u8> = Vec::new();
    v.push(a);
    v.push(b);
    proof {
        assert(v@ =~= seq![a, b]);
    }
    v
}

/// Builds a three-byte parameter list.
fn params3(a: u8, b: u8, c: u8) -> (v: Vec<u8>)
    ensures
        v@ == seq![a, b, c],
{
    let mut v: Vec<u8> = Vec::new();
    v.push(a);
    v.push(b);
    v.push(c);
    proof {
        assert(v@ =~= seq![a, b, c]);
    }
    v
}

/// Builds a six-byte parameter list.
fn params6(a: u8, b: u8, c: u8, d: u8, e: u8, f: u8) -> (v: Vec<u8>)
    ensures
        v@ == seq![a, b, c, d, e, f],
{
    let mut v: Vec<u8> = Vec::new();
    v.push(a);
    v.push(b);
    v.push(c);
    v.push(d);
    v.push(e);
    v.push(f);
    proof {
        assert(v@ =~= seq![a, b, c, d, e, f]);
    }
    v
}

} // verus!
