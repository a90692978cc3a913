//! An in-memory pixel surface with immediate-mode drawing primitives:
//! clear to a background color, set single pixels with silent boundary
//! clamping, and rasterize lines. Presenting the surface to a display is
//! the windowing collaborator's job and stays outside this library.

use vstd::prelude::*;

use crate::layout::{lemma_row_major_distinct, lemma_row_major_index};

verus! {

/// An RGBA color with 8-bit channels.
#[derive(Clone, Copy, PartialEq, Eq, Structural, Debug)]
pub struct Color {
    pub r: u8,
    pub g: u8,
    pub b: u8,
    pub a: u8,
}

impl Color {
    /// Opaque black, the default background.
    pub fn black() -> (c: Color)
        ensures
            c == (Color { r: 0, g: 0, b: 0, a: 255 }),
    {
        Color { r: 0, g: 0, b: 0, a: 255 }
    }

    /// Opaque white, the default drawing color.
    pub fn white() -> (c: Color)
        ensures
            c == (Color { r: 255, g: 255, b: 255, a: 255 }),
    {
        Color { r: 255, g: 255, b: 255, a: 255 }
    }
}

/// A fixed-size pixel image stored row-major, together with the color used
/// by the next `clear` and the color used by subsequent drawing.
pub struct Framebuffer {
    width: u32,
    height: u32,
    background_color: Color,
    current_color: Color,
    pixels: Vec<Color>,
}

impl Framebuffer {
    /// The buffer holds exactly one entry per pixel.
    pub closed spec fn wf(&self) -> bool {
        &&& self.pixels@.len() == self.width * self.height
        &&& self.width * self.height <= usize::MAX
    }

    pub closed spec fn spec_width(&self) -> int {
        self.width as int
    }

    pub closed spec fn spec_height(&self) -> int {
        self.height as int
    }

    pub closed spec fn spec_background(&self) -> Color {
        self.background_color
    }

    pub closed spec fn spec_current(&self) -> Color {
        self.current_color
    }

    /// The whole image, row-major.
    pub closed spec fn spec_pixels(&self) -> Seq<Color> {
        self.pixels@
    }

    /// The pixel at `(x, y)`; meaningful only in bounds.
    pub open spec fn spec_pixel(&self, x: int, y: int) -> Color {
        self.spec_pixels()[y * self.spec_width() + x]
    }

    pub open spec fn in_bounds(&self, x: int, y: int) -> bool {
        0 <= x < self.spec_width() && 0 <= y < self.spec_height()
    }

    /// The image every pixel of which is `c`.
    pub open spec fn filled(&self, c: Color) -> Seq<Color> {
        Seq::new((self.spec_width() * self.spec_height()) as nat, |i: int| c)
    }

    /// A surface of the given dimensions, filled with opaque black, with
    /// white as the initial drawing color.
    pub fn new(width: u32, height: u32) -> (fb: Framebuffer)
        requires
            width >= 1,
            height >= 1,
            width * height <= usize::MAX,
        ensures
            fb.wf(),
            fb.spec_width() == width,
            fb.spec_height() == height,
            fb.spec_background() == (Color { r: 0, g: 0, b: 0, a: 255 }),
            fb.spec_current() == (Color { r: 255, g: 255, b: 255, a: 255 }),
            fb.spec_pixels() == fb.filled(Color { r: 0, g: 0, b: 0, a: 255 }),
    {
        let background_color = Color::black();
        let pixels = filled_buffer(width, height, background_color);
        let fb = Framebuffer {
            width,
            height,
            background_color,
            current_color: Color::white(),
            pixels,
        };
        proof {
            assert(fb.spec_pixels() =~= fb.filled(Color { r: 0, g: 0, b: 0, a: 255 }));
        }
        fb
    }

    pub fn width(&self) -> (w: u32)
        ensures
            w == self.spec_width(),
    {
        self.width
    }

    pub fn height(&self) -> (h: u32)
        ensures
            h == self.spec_height(),
    {
        self.height
    }

    /// Store the color used by the next `clear`; the image is untouched.
    pub fn set_background_color(&mut self, color: Color)
        ensures
            final(self).wf() == old(self).wf(),
            final(self).spec_width() == old(self).spec_width(),
            final(self).spec_height() == old(self).spec_height(),
            final(self).spec_background() == color,
            final(self).spec_current() == old(self).spec_current(),
            final(self).spec_pixels() == old(self).spec_pixels(),
    {
        self.background_color = color;
    }

    /// Store the color used by subsequent drawing; the image is untouched.
    pub fn set_current_color(&mut self, color: Color)
        ensures
            final(self).wf() == old(self).wf(),
            final(self).spec_width() == old(self).spec_width(),
            final(self).spec_height() == old(self).spec_height(),
            final(self).spec_background() == old(self).spec_background(),
            final(self).spec_current() == color,
            final(self).spec_pixels() == old(self).spec_pixels(),
    {
        self.current_color = color;
    }

    /// Refill the whole image with the background color, discarding all
    /// prior drawing.
    pub fn clear(&mut self)
        requires
            old(self).wf(),
        ensures
            final(self).wf(),
            final(self).spec_width() == old(self).spec_width(),
            final(self).spec_height() == old(self).spec_height(),
            final(self).spec_background() == old(self).spec_background(),
            final(self).spec_current() == old(self).spec_current(),
            final(self).spec_pixels() == final(self).filled(old(self).spec_background()),
    {
        let buf = filled_buffer(self.width, self.height, self.background_color);
        self.pixels = buf;
        proof {
            assert(self.spec_pixels() =~= self.filled(old(self).spec_background()));
        }
    }

    /// Set the pixel at `(x, y)` to the current color; coordinates outside
    /// the surface are silently ignored and leave the image unchanged.
    pub fn draw_pixel(&mut self, x: i32, y: i32)
        requires
            old(self).wf(),
        ensures
            final(self).wf(),
            final(self).spec_width() == old(self).spec_width(),
            final(self).spec_height() == old(self).spec_height(),
            final(self).spec_background() == old(self).spec_background(),
            final(self).spec_current() == old(self).spec_current(),
            old(self).in_bounds(x as int, y as int) ==> final(self).spec_pixels() == old(
                self,
            ).spec_pixels().update(
                y * old(self).spec_width() + x,
                old(self).spec_current(),
            ),
            !old(self).in_bounds(x as int, y as int) ==> final(self).spec_pixels() == old(
                self,
            ).spec_pixels(),
    {
        if x >= 0 && y >= 0 && (x as u32) < self.width && (y as u32) < self.height {
            proof {
                lemma_row_major_index(self.spec_width(), self.spec_height(), x as int, y as int);
            }
            let idx = (y as usize) * (self.width as usize) + (x as usize);
            let c = self.current_color;
            self.pixels.set(idx, c);
        }
    }

    /// Rasterize the straight line from `(x0, y0)` to `(x1, y1)` with
    /// integer Bresenham stepping, plotting every visited point in the
    /// current color; each plot inherits `draw_pixel`'s boundary clamping,
    /// and both endpoints are visited.
    pub fn draw_line(&mut self, x0: i32, y0: i32, x1: i32, y1: i32)
        requires
            old(self).wf(),
        ensures
            final(self).wf(),
            final(self).spec_width() == old(self).spec_width(),
            final(self).spec_height() == old(self).spec_height(),
            final(self).spec_background() == old(self).spec_background(),
            final(self).spec_current() == old(self).spec_current(),
            final(self).spec_pixels() == paint(
                old(self).spec_pixels(),
                old(self).spec_width(),
                old(self).spec_height(),
                old(self).spec_current(),
                line_points(x0 as int, y0 as int, x1 as int, y1 as int),
            ),
            old(self).in_bounds(x1 as int, y1 as int) ==> final(self).spec_pixel(
                x1 as int,
                y1 as int,
            ) == old(self).spec_current(),
    {
        let ghost w = old(self).spec_width();
        let ghost h = old(self).spec_height();
        let ghost c = old(self).spec_current();
        let ghost bg = old(self).spec_background();
        let ghost opix = old(self).spec_pixels();
        let ghost ox0 = x0 as int;
        let ghost oy0 = y0 as int;
        let ghost ox1 = x1 as int;
        let ghost oy1 = y1 as int;
        let ghost pts = line_points(ox0, oy0, ox1, oy1);

        let mut cx: i64 = x0 as i64;
        let mut cy: i64 = y0 as i64;
        let ex: i64 = x1 as i64;
        let ey: i64 = y1 as i64;

        let dx: i64 = if ex >= cx {
            ex - cx
        } else {
            cx - ex
        };
        let sx: i64 = if cx < ex {
            1
        } else {
            -1
        };
        let dy: i64 = if ey >= cy {
            -(ey - cy)
        } else {
            -(cy - ey)
        };
        let sy: i64 = if cy < ey {
            1
        } else {
            -1
        };
        let mut err: i64 = dx + dy;

        let ghost mut done: Seq<(int, int)> = Seq::empty();
        let ghost mut i: int = 0;
        let ghost mut j: int = 0;
        let ghost mut fuel: nat = (dx - dy) as nat;

        proof {
            assert(pts =~= done + bres_points(
                cx as int,
                cy as int,
                ox1,
                oy1,
                dx as int,
                dy as int,
                sx as int,
                sy as int,
                err as int,
                fuel,
            ));
        }

        loop
            invariant_except_break
                self.wf(),
                self.spec_width() == w,
                self.spec_height() == h,
                self.spec_background() == bg,
                self.spec_current() == c,
                opix.len() == w * h,
                i32::MIN <= ox0 <= i32::MAX,
                i32::MIN <= oy0 <= i32::MAX,
                i32::MIN <= ox1 <= i32::MAX,
                i32::MIN <= oy1 <= i32::MAX,
                dx == spec_abs(ox1 - ox0),
                dy == -spec_abs(oy1 - oy0),
                sx == (if ox0 < ox1 {
                    1int
                } else {
                    -1int
                }),
                sy == (if oy0 < oy1 {
                    1int
                } else {
                    -1int
                }),
                sx == 1 ==> ox1 == ox0 + dx,
                sx == -1 ==> ox1 == ox0 - dx,
                sy == 1 ==> oy1 == oy0 - dy,
                sy == -1 ==> oy1 == oy0 + dy,
                ex == ox1,
                ey == oy1,
                0 <= i <= dx,
                0 <= j <= -(dy as int),
                sx == 1 ==> cx == ox0 + i,
                sx == -1 ==> cx == ox0 - i,
                sy == 1 ==> cy == oy0 + j,
                sy == -1 ==> cy == oy0 - j,
                err == dx + dy + i * (dy as int) + j * (dx as int),
                2 * (dy as int) <= err <= 2 * (dx as int),
                fuel >= (dx - i) + (-(dy as int) - j),
                pts == done + bres_points(
                    cx as int,
                    cy as int,
                    ox1,
                    oy1,
                    dx as int,
                    dy as int,
                    sx as int,
                    sy as int,
                    err as int,
                    fuel,
                ),
                self.spec_pixels() == paint(opix, w, h, c, done),
            ensures
                self.wf(),
                self.spec_width() == w,
                self.spec_height() == h,
                self.spec_background() == bg,
                self.spec_current() == c,
                self.spec_pixels() == paint(opix, w, h, c, pts),
                self.in_bounds(ox1, oy1) ==> self.spec_pixels()[oy1 * w + ox1] == c,
            decreases fuel,
        {
            proof {
                assert(i32::MIN <= cx <= i32::MAX);
                assert(i32::MIN <= cy <= i32::MAX);
            }
            let px = cx as i32;
            let py = cy as i32;
            self.draw_pixel(px, py);
            proof {
                let pt = (cx as int, cy as int);
                lemma_paint_snoc(opix, w, h, c, done, pt);
                done = done.push(pt);
                assert(self.spec_pixels() == paint(opix, w, h, c, done));
            }

            if cx == ex && cy == ey {
                proof {
                    assert(bres_points(
                        cx as int,
                        cy as int,
                        ox1,
                        oy1,
                        dx as int,
                        dy as int,
                        sx as int,
                        sy as int,
                        err as int,
                        fuel,
                    ) == seq![(cx as int, cy as int)]);
                    assert(pts =~= done);
                    if self.in_bounds(ox1, oy1) {
                        crate::layout::lemma_row_major_index(w, h, ox1, oy1);
                        assert(self.spec_pixels()[oy1 * w + ox1] == c);
                    }
                }
                break;
            }

            let ghost s = bres_step(
                cx as int,
                cy as int,
                dx as int,
                dy as int,
                sx as int,
                sy as int,
                err as int,
            );
            proof {
                assert(i < dx || j < -(dy as int));
                assert(fuel >= 1);
                assert(bres_points(
                    cx as int,
                    cy as int,
                    ox1,
                    oy1,
                    dx as int,
                    dy as int,
                    sx as int,
                    sy as int,
                    err as int,
                    fuel,
                ) == seq![(cx as int, cy as int)] + bres_points(
                    s.0,
                    s.1,
                    ox1,
                    oy1,
                    dx as int,
                    dy as int,
                    sx as int,
                    sy as int,
                    s.2,
                    (fuel - 1) as nat,
                ));
                assert(pts =~= done + bres_points(
                    s.0,
                    s.1,
                    ox1,
                    oy1,
                    dx as int,
                    dy as int,
                    sx as int,
                    sy as int,
                    s.2,
                    (fuel - 1) as nat,
                ));
                fuel = (fuel - 1) as nat;
            }

            let ghost i0 = i;
            let ghost j0 = j;
            let ghost err0 = err as int;
            let e2 = 2 * err;
            if e2 >= dy {
                proof {
                    if i0 == dx {
                        assert(j0 <= -(dy as int) - 1);
                        assert(2 * (dx + dy + dx * (dy as int) + j0 * (dx as int)) < dy)
                            by (nonlinear_arith)
                            requires
                                dx as int >= 0,
                                dy as int <= -1,
                                0 <= j0,
                                j0 <= -(dy as int) - 1,
                        ;
                        assert(false);
                    }
                }
                err = err + dy;
                cx = cx + sx;
                proof {
                    assert((i + 1) * (dy as int) == i * (dy as int) + dy) by (nonlinear_arith);
                    i = i + 1;
                }
            }
            if e2 <= dx {
                proof {
                    if j0 == -(dy as int) {
                        assert(i0 <= dx - 1);
                        assert(2 * (dx + dy + i0 * (dy as int) + (-(dy as int)) * (dx as int))
                            > dx) by (nonlinear_arith)
                            requires
                                dy as int <= 0,
                                0 <= i0,
                                i0 <= dx - 1,
                                dx as int >= 1,
                        ;
                        assert(false);
                    }
                }
                err = err + dx;
                cy = cy + sy;
                proof {
                    assert((j + 1) * (dx as int) == j * (dx as int) + dx) by (nonlinear_arith);
                    j = j + 1;
                }
            }
            proof {
                assert(cx as int == s.0);
                assert(cy as int == s.1);
                assert(err as int == s.2);
            }
        }
    }

    /// The pixel at `(x, y)`, or nothing when the coordinate is outside the
    /// surface.
    pub fn get_pixel(&self, x: u32, y: u32) -> (p: Option<Color>)
        requires
            self.wf(),
        ensures
            p == if self.in_bounds(x as int, y as int) {
                Some(self.spec_pixel(x as int, y as int))
            } else {
                None::<Color>
            },
    {
        if x < self.width && y < self.height {
            proof {
                lemma_row_major_index(self.spec_width(), self.spec_height(), x as int, y as int);
            }
            Some(self.pixels[(y as usize) * (self.width as usize) + (x as usize)])
        } else {
            None
        }
    }
}

/// The image of a well-formed framebuffer holds exactly one entry per
/// pixel.
pub proof fn lemma_pixels_len(fb: &Framebuffer)
    requires
        fb.wf(),
    ensures
        fb.spec_pixels().len() == fb.spec_width() * fb.spec_height(),
{
}

/// The absolute value of `v`.
pub open spec fn spec_abs(v: int) -> int {
    if v >= 0 {
        v
    } else {
        -v
    }
}

/// One step of Bresenham's error accumulator: from position `(x0, y0)`
/// with error `err`, the next position and error, for fixed axis deltas
/// `dx >= 0 >= dy` and step directions `sx, sy`.
pub open spec fn bres_step(x0: int, y0: int, dx: int, dy: int, sx: int, sy: int, err: int) -> (
    int,
    int,
    int,
) {
    let e2 = 2 * err;
    let xa = if e2 >= dy {
        x0 + sx
    } else {
        x0
    };
    let erra = if e2 >= dy {
        err + dy
    } else {
        err
    };
    let yb = if e2 <= dx {
        y0 + sy
    } else {
        y0
    };
    let errb = if e2 <= dx {
        erra + dx
    } else {
        erra
    };
    (xa, yb, errb)
}

/// The points Bresenham stepping visits from `(x0, y0)` until it reaches
/// `(x1, y1)`, both endpoints included. The recursion is bounded by `fuel`;
/// `dx - dy` steps always suffice from a canonical starting state.
pub open spec fn bres_points(
    x0: int,
    y0: int,
    x1: int,
    y1: int,
    dx: int,
    dy: int,
    sx: int,
    sy: int,
    err: int,
    fuel: nat,
) -> Seq<(int, int)>
    decreases fuel,
{
    if (x0 == x1 && y0 == y1) || fuel == 0 {
        seq![(x0, y0)]
    } else {
        let s = bres_step(x0, y0, dx, dy, sx, sy, err);
        seq![(x0, y0)] + bres_points(s.0, s.1, x1, y1, dx, dy, sx, sy, s.2, (fuel - 1) as nat)
    }
}

/// The pixels visited when rasterizing the line from `(x0, y0)` to
/// `(x1, y1)`, in drawing order, both endpoints included.
pub open spec fn line_points(x0: int, y0: int, x1: int, y1: int) -> Seq<(int, int)> {
    let dx = spec_abs(x1 - x0);
    let dy = -spec_abs(y1 - y0);
    let sx: int = if x0 < x1 {
        1
    } else {
        -1
    };
    let sy: int = if y0 < y1 {
        1
    } else {
        -1
    };
    bres_points(x0, y0, x1, y1, dx, dy, sx, sy, dx + dy, (dx - dy) as nat)
}

/// Set the pixel at point `p` of a `w` by `h` image to `c`; points outside
/// the image leave it unchanged.
pub open spec fn paint_one(pixels: Seq<Color>, w: int, h: int, c: Color, p: (int, int)) -> Seq<
    Color,
> {
    if 0 <= p.0 < w && 0 <= p.1 < h {
        pixels.update(p.1 * w + p.0, c)
    } else {
        pixels
    }
}

/// Paint every point of `pts` in order onto a `w` by `h` image, clamping
/// each to the image bounds.
pub open spec fn paint(pixels: Seq<Color>, w: int, h: int, c: Color, pts: Seq<(int, int)>) -> Seq<
    Color,
>
    decreases pts.len(),
{
    if pts.len() == 0 {
        pixels
    } else {
        paint(paint_one(pixels, w, h, c, pts[0]), w, h, c, pts.drop_first())
    }
}

/// Painting a sequence extended by one point paints the sequence, then the
/// point.
proof fn lemma_paint_snoc(
    pixels: Seq<Color>,
    w: int,
    h: int,
    c: Color,
    pts: Seq<(int, int)>,
    p: (int, int),
)
    ensures
        paint(pixels, w, h, c, pts.push(p)) == paint_one(paint(pixels, w, h, c, pts), w, h, c, p),
    decreases pts.len(),
{
    if pts.len() == 0 {
        assert(pts.push(p)[0] == p);
        assert(pts.push(p).drop_first() =~= Seq::<(int, int)>::empty());
        assert(paint(pixels, w, h, c, pts.push(p)) == paint(
            paint_one(pixels, w, h, c, p),
            w,
            h,
            c,
            pts.push(p).drop_first(),
        ));
        assert(paint(paint_one(pixels, w, h, c, p), w, h, c, Seq::<(int, int)>::empty())
            == paint_one(pixels, w, h, c, p));
        assert(paint(pixels, w, h, c, pts) == pixels);
    } else {
        assert(pts.push(p)[0] == pts[0]);
        assert(pts.push(p).drop_first() =~= pts.drop_first().push(p));
        lemma_paint_snoc(paint_one(pixels, w, h, c, pts[0]), w, h, c, pts.drop_first(), p);
    }
}

/// The rasterized line starts at its first endpoint.
pub proof fn lemma_line_starts_at_first_endpoint(x0: int, y0: int, x1: int, y1: int)
    ensures
        line_points(x0, y0, x1, y1).len() >= 1,
        line_points(x0, y0, x1, y1)[0] == (x0, y0),
{
}

/// A `width * height` buffer every entry of which is `c`.
fn filled_buffer(width: u32, height: u32, c: Color) -> (buf: Vec<Color>)
    requires
        width * height <= usize::MAX,
    ensures
        buf@.len() == width * height,
        forall|i: int| 0 <= i < buf@.len() ==> buf@[i] == c,
{
    let n = (width as usize) * (height as usize);
    let mut buf: Vec<Color> = Vec::new();
    let mut i: usize = 0;
    while i < n
        invariant
            i <= n,
            buf@.len() == i,
            forall|j: int| 0 <= j < i ==> buf@[j] == c,
        decreases n - i,
    {
        buf.push(c);
        i = i + 1;
    }
    buf
}

} // verus!
