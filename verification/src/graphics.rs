//! The drawing facade over an external graphics protocol.
//!
//! A graphics library supplies pixel colors and rectangle/image geometry;
//! the driver consumes them as plain coordinate and color values: a pixel is
//! `(x, y, color)`, a rectangle its inclusive corners with a fill/stroke
//! style, an image its corner coordinates with its row-major color words.

use vstd::prelude::*;

use crate::ST7735;
use crate::bus::DisplayInterface;
use crate::bus::aborts_within;
use crate::bus::lemma_abort_at;
use crate::bus::BusEvent;
use crate::protocol::set_pixel_events;
use crate::protocol::set_pixels_buffered_events;

verus! {

/// A pixel of the external graphics protocol: its coordinates and its
/// 16-bit color word.
#[derive(Clone, Copy, Debug, PartialEq, Eq)]
pub struct Pixel {
    pub x: u16,
    pub y: u16,
    pub color: u16,
}

/// A rectangle, by its inclusive corner coordinates.
#[derive(Clone, Copy, Debug, PartialEq, Eq)]
pub struct Rectangle {
    pub sx: u16,
    pub sy: u16,
    pub ex: u16,
    pub ey: u16,
}

/// Fill and stroke of a rectangle. The filled drawing path needs a fill
/// color; a style without one is the external protocol's per-pixel fallback
/// (see [`ST7735::draw_iter`]).
#[derive(Clone, Copy, Debug, PartialEq, Eq)]
pub struct RectStyle {
    pub fill: Option<u16>,
    pub stroke: Option<u16>,
    pub stroke_width: u32,
}

/// The events of drawing the given pixels one by one, each through its own
/// one-by-one address window.
pub open spec fn draw_iter_events(ps: Seq<Pixel>, dx: u16, dy: u16) -> Seq<BusEvent>
    decreases ps.len(),
{
    if ps.len() == 0 {
        Seq::empty()
    } else {
        set_pixel_events(ps[0].x, ps[0].y, ps[0].color, dx, dy) + draw_iter_events(
            ps.drop_first(),
            dx,
            dy,
        )
    }
}

pub proof fn lemma_draw_iter_events_concat(a: Seq<Pixel>, b: Seq<Pixel>, dx: u16, dy: u16)
    ensures
        draw_iter_events(a + b, dx, dy) == draw_iter_events(a, dx, dy) + draw_iter_events(
            b,
            dx,
            dy,
        ),
    decreases a.len(),
{
    if a.len() == 0 {
        assert(a + b =~= b);
        assert(draw_iter_events(a, dx, dy) + draw_iter_events(b, dx, dy) =~= draw_iter_events(
            b,
            dx,
            dy,
        ));
    } else {
        assert((a + b).drop_first() =~= a.drop_first() + b);
        lemma_draw_iter_events_concat(a.drop_first(), b, dx, dy);
        assert(draw_iter_events(a + b, dx, dy) =~= draw_iter_events(a, dx, dy)
            + draw_iter_events(b, dx, dy));
    }
}

pub proof fn lemma_draw_iter_events_len(ps: Seq<Pixel>, dx: u16, dy: u16)
    ensures
        draw_iter_events(ps, dx, dy).len() == 14 * ps.len(),
    decreases ps.len(),
{
    if ps.len() > 0 {
        lemma_draw_iter_events_len(ps.drop_first(), dx, dy);
        assert(set_pixel_events(ps[0].x, ps[0].y, ps[0].color, dx, dy).len() == 14);
    }
}

/// The color that the rectangle formula assigns to the row-major pixel index
/// `i` of a `w`-by-`h` window: the stroke color on (or near, within the
/// stroke width of) the border, the fill color inside.
pub open spec fn rect_index_color(i: int, w: int, h: int, sw: int, stroke: u16, fill: u16) -> u16 {
    if i % w <= sw || i % w >= w - sw || i <= sw * w || i >= (h - sw) * w {
        stroke
    } else {
        fill
    }
}

/// The color words a styled `w`-by-`h` rectangle streams, row-major: all
/// fill when there is no stroke, else the stroke formula per index. A style
/// without a fill color draws nothing through this path.
pub open spec fn rect_colors(w: int, h: int, style: RectStyle) -> Seq<u16> {
    match (style.fill, style.stroke) {
        (Some(fill), None) => Seq::new((w * h) as nat, |i: int| fill),
        (Some(fill), Some(stroke)) => Seq::new(
            (w * h) as nat,
            |i: int| rect_index_color(i, w, h, style.stroke_width as int, stroke, fill),
        ),
        _ => Seq::empty(),
    }
}

/// LAW: a rectangle fill without a stroke streams exactly `w * h` color
/// words, every one the fill color; [`ST7735::draw_rectangle`] feeds them to
/// the buffered path, whose flushes
/// [`crate::protocol::lemma_buffered_writer_shape`] describes.
pub proof fn lemma_fill_rectangle_words(w: int, h: int, fill: u16, sw: u32)
    requires
        0 <= w * h,
    ensures
        rect_colors(w, h, (RectStyle { fill: Some(fill), stroke: None, stroke_width: sw })).len()
            == w * h,
        forall|i: int|
            0 <= i < w * h ==> rect_colors(
                w,
                h,
                (RectStyle { fill: Some(fill), stroke: None, stroke_width: sw }),
            )[i] == fill,
{
}

impl<IF> ST7735<IF> where IF: DisplayInterface {
    /// Draws one pixel of the external graphics protocol.
    pub fn draw_pixel(&mut self, pixel: Pixel) -> (r: Result<(), ()>)
        requires
            pixel.x + old(self).dx <= u16::MAX,
            pixel.y + old(self).dy <= u16::MAX,
        ensures
            final(self).config() == old(self).config(),
            r is Ok ==> final(self).events() == old(self).events() + set_pixel_events(
                pixel.x,
                pixel.y,
                pixel.color,
                old(self).dx,
                old(self).dy,
            ),
            r is Err ==> aborts_within(
                old(self).events(),
                final(self).events(),
                set_pixel_events(pixel.x, pixel.y, pixel.color, old(self).dx, old(self).dy),
            ),
    {
        self.set_pixel(pixel.x, pixel.y, pixel.color)
    }

    /// Draws an object from the sequence of its pixels, one pixel at a time.
    #[verifier::loop_isolation(false)]
    pub fn draw_iter(&mut self, pixels: &[Pixel]) -> (r: Result<(), ()>)
        requires
            forall|j: int|
                0 <= j < pixels@.len() ==> ((#[trigger] pixels@[j]).x + old(self).dx <= u16::MAX
                    && pixels@[j].y + old(self).dy <= u16::MAX),
        ensures
            final(self).config() == old(self).config(),
            r is Ok ==> final(self).events() == old(self).events() + draw_iter_events(
                pixels@,
                old(self).dx,
                old(self).dy,
            ),
            r is Err ==> aborts_within(
                old(self).events(),
                final(self).events(),
                draw_iter_events(pixels@, old(self).dx, old(self).dy),
            ),
    {
        let ghost pre = self.iface.events();
        let ghost ps = pixels@;
        let ghost full = draw_iter_events(ps, self.dx, self.dy);
        let ghost cfg = self.config();
        let mut i: usize = 0;
        while i < pixels.len()
            invariant
                self.config() == cfg,
                i <= ps.len(),
                self.iface.events() == pre + draw_iter_events(
                    ps.subrange(0, i as int),
                    self.dx,
                    self.dy,
                ),
            decreases ps.len() - i,
        {
            let p = pixels[i];
            match self.set_pixel(p.x, p.y, p.color) {
                Ok(_) => {},
                Err(_) => {
                    proof {
                        let done_ev = draw_iter_events(ps.subrange(0, i as int), self.dx, self.dy);
                        let step = set_pixel_events(
                            ps[i as int].x,
                            ps[i as int].y,
                            ps[i as int].color,
                            self.dx,
                            self.dy,
                        );
                        lemma_draw_iter_events_len(ps.subrange(0, i as int), self.dx, self.dy);
                        lemma_draw_iter_events_concat(
                            ps.subrange(0, i as int),
                            ps.skip(i as int),
                            self.dx,
                            self.dy,
                        );
                        assert(ps.subrange(0, i as int) + ps.skip(i as int) =~= ps);
                        assert(ps.skip(i as int)[0] == ps[i as int]);
                        assert(step.len() == 14);
                        assert(done_ev =~= full.subrange(0, 14 * i));
                        assert(step =~= full.subrange(14 * i, 14 * i + 14));
                        lemma_abort_at(pre, self.iface.events(), full, 14 * i, step);
                    }
                    return Err(());
                },
            }
            i = i + 1;
            proof {
                assert(ps.subrange(0, i as int) =~= ps.subrange(0, i - 1) + seq![ps[i - 1]]);
                lemma_draw_iter_events_concat(
                    ps.subrange(0, i - 1),
                    seq![ps[i - 1]],
                    self.dx,
                    self.dy,
                );
                assert(seq![ps[i - 1]].drop_first() =~= Seq::<Pixel>::empty());
                assert(draw_iter_events(Seq::<Pixel>::empty(), self.dx, self.dy)
                    == Seq::<BusEvent>::empty());
                assert(draw_iter_events(seq![ps[i - 1]], self.dx, self.dy) =~= set_pixel_events(
                    ps[i - 1].x,
                    ps[i - 1].y,
                    ps[i - 1].color,
                    self.dx,
                    self.dy,
                ));
                assert(self.iface.events() =~= pre + draw_iter_events(
                    ps.subrange(0, i as int),
                    self.dx,
                    self.dy,
                ));
            }
        }
        proof {
            assert(ps.subrange(0, ps.len() as int) =~= ps);
            assert(self.iface.events() == pre + full);
        }
        Ok(())
    }

    /// Draws a filled (and optionally stroked) rectangle through the
    /// buffered path: the address window over the inclusive corners, then
    /// one color word per pixel, row-major, chosen by the stroke formula.
    ///
    /// The pixel count is bounded as the formula's arithmetic requires; a
    /// style without a fill color takes the external protocol's per-pixel
    /// fallback instead (enumerate the outline's pixels and hand them to
    /// [`ST7735::draw_iter`]).
    #[verifier::loop_isolation(false)]
    pub fn draw_rectangle(&mut self, rect: Rectangle, style: RectStyle) -> (r: Result<(), ()>)
        requires
            style.fill is Some,
            rect.sx <= rect.ex,
            rect.sy <= rect.ey,
            rect.sx + old(self).dx <= u16::MAX,
            rect.ex + old(self).dx <= u16::MAX,
            rect.sy + old(self).dy <= u16::MAX,
            rect.ey + old(self).dy <= u16::MAX,
            (rect.ex - rect.sx + 1) * (rect.ey - rect.sy + 1) <= 0x7FFF_FFFF,
            style.stroke is Some ==> style.stroke_width <= 0x7FFF,
        ensures
            final(self).config() == old(self).config(),
            r is Ok ==> final(self).events() == old(self).events() + set_pixels_buffered_events(
                rect.sx,
                rect.sy,
                rect.ex,
                rect.ey,
                old(self).dx,
                old(self).dy,
                rect_colors(rect.ex - rect.sx + 1, rect.ey - rect.sy + 1, style),
            ),
            r is Err ==> aborts_within(
                old(self).events(),
                final(self).events(),
                set_pixels_buffered_events(
                    rect.sx,
                    rect.sy,
                    rect.ex,
                    rect.ey,
                    old(self).dx,
                    old(self).dy,
                    rect_colors(rect.ex - rect.sx + 1, rect.ey - rect.sy + 1, style),
                ),
            ),
    {
        let w: i64 = rect.ex as i64 - rect.sx as i64 + 1;
        let h: i64 = rect.ey as i64 - rect.sy as i64 + 1;
        let size: i64 = w * h;
        let fill = match style.fill {
            Some(f) => f,
            None => 0,
        };
        let mut colors: Vec<u16> = Vec::new();
        match style.stroke {
            None => {
                let mut j: i64 = 0;
                while j < size
                    invariant
                        0 <= j <= size,
                        colors@.len() == j,
                        forall|t: int| 0 <= t < j ==> colors@[t] == fill,
                    decreases size - j,
                {
                    colors.push(fill);
                    j = j + 1;
                }
                proof {
                    assert(colors@ =~= rect_colors(
                        rect.ex - rect.sx + 1,
                        rect.ey - rect.sy + 1,
                        style,
                    ));
                }
            },
            Some(stroke) => {
                let sw: i64 = style.stroke_width as i64;
                let mut j: i64 = 0;
                while j < size
                    invariant
                        0 <= j <= size,
                        colors@.len() == j,
                        forall|t: int|
                            0 <= t < j ==> colors@[t] == rect_index_color(
                                t,
                                w as int,
                                h as int,
                                sw as int,
                                stroke,
                                fill,
                            ),
                    decreases size - j,
                {
                    proof {
                        assert(0 <= sw * w <= 0x7FFF * 65536) by (nonlinear_arith)
                            requires
                                0 <= sw <= 0x7FFF,
                                1 <= w <= 65536,
                        ;
                        assert((-0x7FFF) * 65536 <= (h - sw) * w <= 65536 * 65536)
                            by (nonlinear_arith)
                            requires
                                -0x7FFF <= h - sw <= 65536,
                                1 <= w <= 65536,
                        ;
                    }
                    let c = if j % w <= sw || j % w >= w - sw || j <= sw * w || j >= (h - sw)
                        * w {
                        stroke
                    } else {
                        fill
                    };
                    proof {
                        assert(c == rect_index_color(
                            j as int,
                            w as int,
                            h as int,
                            sw as int,
                            stroke,
                            fill,
                        ));
                    }
                    colors.push(c);
                    j = j + 1;
                }
                proof {
                    assert(colors@ =~= rect_colors(
                        rect.ex - rect.sx + 1,
                        rect.ey - rect.sy + 1,
                        style,
                    ));
                }
            },
        }
        self.set_pixels_buffered(rect.sx, rect.sy, rect.ex, rect.ey, colors.as_slice())
    }

    /// Streams an image's row-major pixel colors into the window spanned by
    /// its corner coordinates, through the buffered path. The window's end
    /// coordinates are set one pixel tighter than the image's extent, which
    /// the hardware needs to keep the image from skewing.
    pub fn draw_image(&mut self, sx: u16, sy: u16, ex: u16, ey: u16, pixels: &[u16]) -> (r: Result<
        (),
        (),
    >)
        requires
            ex >= 1,
            ey >= 1,
            sx + old(self).dx <= u16::MAX,
            (ex - 1) + old(self).dx <= u16::MAX,
            sy + old(self).dy <= u16::MAX,
            (ey - 1) + old(self).dy <= u16::MAX,
        ensures
            final(self).config() == old(self).config(),
            r is Ok ==> final(self).events() == old(self).events() + set_pixels_buffered_events(
                sx,
                sy,
                (ex - 1) as u16,
                (ey - 1) as u16,
                old(self).dx,
                old(self).dy,
                pixels@,
            ),
            r is Err ==> aborts_within(
                old(self).events(),
                final(self).events(),
                set_pixels_buffered_events(
                    sx,
                    sy,
                    (ex - 1) as u16,
                    (ey - 1) as u16,
                    old(self).dx,
                    old(self).dy,
                    pixels@,
                ),
            ),
    {
        self.set_pixels_buffered(sx, sy, ex - 1, ey - 1, pixels)
    }
}

} // verus!
