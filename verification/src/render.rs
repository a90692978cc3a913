//! Render glue: map every live grid cell to a filled `cell_size` by
//! `cell_size` pixel block on the framebuffer, drawn in white, relying on
//! the framebuffer's boundary clamping at the surface edge.

use vstd::prelude::*;

use crate::framebuffer::{lemma_pixels_len, Color, Framebuffer};
use crate::grid::Grid;
use crate::layout::{
    lemma_div_mod_decompose, lemma_row_major_distinct, lemma_row_major_index,
    lemma_row_major_round_trip,
};

verus! {

/// Whether the pixel at `(px, py)` lies inside the block of a live cell:
/// the cell whose `cs` by `cs` block contains the pixel is on the grid and
/// alive.
pub open spec fn covered(g: &Grid, cs: int, px: int, py: int) -> bool {
    g.alive(px / cs, py / cs)
}

/// The entry of a row-major `w`-column image at `(x, y)`.
spec fn pixel_at(s: Seq<Color>, w: int, x: int, y: int) -> Color {
    s[y * w + x]
}

/// `covered`, restricted to the cells already drawn: those in rows before
/// `y`, and those before column `x` of row `y`.
spec fn covered_below(g: &Grid, cs: int, px: int, py: int, y: int, x: int) -> bool {
    g.alive(px / cs, py / cs) && (py / cs < y || (py / cs == y && px / cs < x))
}

/// Whether `(px, py)` lies in the already drawn part of cell `(cx, cy)`'s
/// block: block rows before `r`, and row `r` before column `q`.
spec fn block_partial(cs: int, cx: int, cy: int, px: int, py: int, r: int, q: int) -> bool {
    px / cs == cx && py / cs == cy && (py % cs < r || (py % cs == r && px % cs < q))
}

/// Fill a `cell_size` by `cell_size` white block at pixel
/// `(x * cell_size, y * cell_size)` for every live cell `(x, y)` of the
/// grid; every other pixel keeps its prior color.
pub fn draw_grid(fb: &mut Framebuffer, g: &Grid, cell_size: usize)
    requires
        old(fb).wf(),
        g.wf(),
        cell_size >= 1,
        g.spec_width() * cell_size <= i32::MAX,
        g.spec_height() * cell_size <= i32::MAX,
    ensures
        final(fb).wf(),
        final(fb).spec_width() == old(fb).spec_width(),
        final(fb).spec_height() == old(fb).spec_height(),
        final(fb).spec_background() == old(fb).spec_background(),
        final(fb).spec_current() == (Color { r: 255, g: 255, b: 255, a: 255 }),
        forall|px: int, py: int|
            old(fb).in_bounds(px, py) ==> #[trigger] final(fb).spec_pixel(px, py) == (if covered(
                g,
                cell_size as int,
                px,
                py,
            ) {
                Color { r: 255, g: 255, b: 255, a: 255 }
            } else {
                old(fb).spec_pixel(px, py)
            }),
{
    let ghost fw = old(fb).spec_width();
    let ghost fh = old(fb).spec_height();
    let ghost bg = old(fb).spec_background();
    let ghost white = Color { r: 255, g: 255, b: 255, a: 255 };
    let ghost cs = cell_size as int;
    let ghost opix = old(fb).spec_pixels();

    proof {
        lemma_pixels_len(fb);
    }
    fb.set_current_color(Color::white());

    let gw = g.width();
    let gh = g.height();
    let mut y: usize = 0;
    while y < gh
        invariant
            fb.wf(),
            g.wf(),
            fb.spec_width() == fw,
            fb.spec_height() == fh,
            fb.spec_background() == bg,
            fb.spec_current() == white,
            white == (Color { r: 255, g: 255, b: 255, a: 255 }),
            cs == cell_size,
            cell_size >= 1,
            gw == g.spec_width(),
            gh == g.spec_height(),
            gw * cs <= i32::MAX,
            gh * cs <= i32::MAX,
            y <= gh,
            opix.len() == fw * fh,
            forall|px: int, py: int|
                0 <= px < fw && 0 <= py < fh ==> #[trigger] fb.spec_pixel(px, py) == (
                if covered_below(g, cs, px, py, y as int, 0) {
                    white
                } else {
                    pixel_at(opix, fw, px, py)
                }),
        decreases gh - y,
    {
        let mut x: usize = 0;
        while x < gw
            invariant
                fb.wf(),
                g.wf(),
                fb.spec_width() == fw,
                fb.spec_height() == fh,
                fb.spec_background() == bg,
                fb.spec_current() == white,
                white == (Color { r: 255, g: 255, b: 255, a: 255 }),
                cs == cell_size,
                cell_size >= 1,
                gw == g.spec_width(),
                gh == g.spec_height(),
                gw * cs <= i32::MAX,
                gh * cs <= i32::MAX,
                y < gh,
                x <= gw,
                opix.len() == fw * fh,
                forall|px: int, py: int|
                    0 <= px < fw && 0 <= py < fh ==> #[trigger] fb.spec_pixel(px, py) == (
                    if covered_below(g, cs, px, py, y as int, x as int) {
                        white
                    } else {
                        pixel_at(opix, fw, px, py)
                    }),
            decreases gw - x,
        {
            if g.get(x, y) {
                let mut by: usize = 0;
                while by < cell_size
                    invariant
                        fb.wf(),
                        g.wf(),
                        fb.spec_width() == fw,
                        fb.spec_height() == fh,
                        fb.spec_background() == bg,
                        fb.spec_current() == white,
                        white == (Color { r: 255, g: 255, b: 255, a: 255 }),
                        cs == cell_size,
                        cell_size >= 1,
                        gw == g.spec_width(),
                        gh == g.spec_height(),
                        gw * cs <= i32::MAX,
                        gh * cs <= i32::MAX,
                        y < gh,
                        x < gw,
                        by <= cell_size,
                        g.cell(x as int, y as int),
                        opix.len() == fw * fh,
                        forall|px: int, py: int|
                            0 <= px < fw && 0 <= py < fh ==> #[trigger] fb.spec_pixel(px, py) == (
                            if covered_below(g, cs, px, py, y as int, x as int) || block_partial(
                                cs,
                                x as int,
                                y as int,
                                px,
                                py,
                                by as int,
                                0,
                            ) {
                                white
                            } else {
                                pixel_at(opix, fw, px, py)
                            }),
                    decreases cell_size - by,
                {
                    let mut bx: usize = 0;
                    while bx < cell_size
                        invariant
                            fb.wf(),
                            g.wf(),
                            fb.spec_width() == fw,
                            fb.spec_height() == fh,
                            fb.spec_background() == bg,
                            fb.spec_current() == white,
                            white == (Color { r: 255, g: 255, b: 255, a: 255 }),
                            cs == cell_size,
                            cell_size >= 1,
                            gw == g.spec_width(),
                            gh == g.spec_height(),
                            gw * cs <= i32::MAX,
                            gh * cs <= i32::MAX,
                            y < gh,
                            x < gw,
                            by < cell_size,
                            bx <= cell_size,
                            g.cell(x as int, y as int),
                            opix.len() == fw * fh,
                            forall|px: int, py: int|
                                0 <= px < fw && 0 <= py < fh ==> #[trigger] fb.spec_pixel(px, py)
                                    == (if covered_below(g, cs, px, py, y as int, x as int)
                                    || block_partial(
                                    cs,
                                    x as int,
                                    y as int,
                                    px,
                                    py,
                                    by as int,
                                    bx as int,
                                ) {
                                    white
                                } else {
                                    pixel_at(opix, fw, px, py)
                                }),
                        decreases cell_size - bx,
                    {
                        proof {
                            assert((x as int + 1) * cs <= gw as int * cs) by (nonlinear_arith)
                                requires
                                    x as int + 1 <= gw as int,
                                    cs >= 0,
                            ;
                            assert(x as int * cs + cs == (x as int + 1) * cs) by (nonlinear_arith);
                            assert((y as int + 1) * cs <= gh as int * cs) by (nonlinear_arith)
                                requires
                                    y as int + 1 <= gh as int,
                                    cs >= 0,
                            ;
                            assert(y as int * cs + cs == (y as int + 1) * cs) by (nonlinear_arith);
                        }
                        let pxu = x * cell_size + bx;
                        let pyu = y * cell_size + by;
                        let ghost p0 = pxu as int;
                        let ghost p1 = pyu as int;
                        let ghost prev = fb.spec_pixels();
                        proof {
                            lemma_pixels_len(fb);
                            assert forall|px: int, py: int|
                                0 <= px < fw && 0 <= py < fh implies #[trigger] pixel_at(
                                prev,
                                fw,
                                px,
                                py,
                            ) == (if covered_below(g, cs, px, py, y as int, x as int)
                                || block_partial(
                                cs,
                                x as int,
                                y as int,
                                px,
                                py,
                                by as int,
                                bx as int,
                            ) {
                                white
                            } else {
                                pixel_at(opix, fw, px, py)
                            }) by {
                                assert(pixel_at(prev, fw, px, py) == fb.spec_pixel(px, py));
                            }
                        }
                        let pxi = pxu as i32;
                        let pyi = pyu as i32;
                        proof {
                            assert(pxi as int == p0);
                            assert(pyi as int == p1);
                        }
                        fb.draw_pixel(pxi, pyi);
                        proof {
                            lemma_pixels_len(fb);
                            lemma_row_major_round_trip(cs, bx as int, x as int);
                            lemma_row_major_round_trip(cs, by as int, y as int);
                            assert forall|px: int, py: int|
                                0 <= px < fw && 0 <= py < fh implies #[trigger] fb.spec_pixel(
                                px,
                                py,
                            ) == (if covered_below(g, cs, px, py, y as int, x as int)
                                || block_partial(
                                cs,
                                x as int,
                                y as int,
                                px,
                                py,
                                by as int,
                                bx as int + 1,
                            ) {
                                white
                            } else {
                                pixel_at(opix, fw, px, py)
                            }) by {
                                lemma_row_major_index(fw, fh, px, py);
                                lemma_div_mod_decompose(px, cs);
                                lemma_div_mod_decompose(py, cs);
                                if px == p0 && py == p1 {
                                    assert(fb.spec_pixel(px, py) == white);
                                } else {
                                    if 0 <= p0 < fw && 0 <= p1 < fh {
                                        lemma_row_major_index(fw, fh, p0, p1);
                                        lemma_row_major_distinct(fw, p0, p1, px, py);
                                    }
                                    assert(fb.spec_pixel(px, py) == pixel_at(prev, fw, px, py));
                                }
                            }
                        }
                        bx = bx + 1;
                    }
                    proof {
                        assert forall|px: int, py: int|
                            0 <= px < fw && 0 <= py < fh implies #[trigger] fb.spec_pixel(px, py)
                            == (if covered_below(g, cs, px, py, y as int, x as int)
                            || block_partial(
                            cs,
                            x as int,
                            y as int,
                            px,
                            py,
                            by as int + 1,
                            0,
                        ) {
                            white
                        } else {
                            pixel_at(opix, fw, px, py)
                        }) by {
                            lemma_div_mod_decompose(px, cs);
                            lemma_div_mod_decompose(py, cs);
                        }
                    }
                    by = by + 1;
                }
                proof {
                    assert forall|px: int, py: int|
                        0 <= px < fw && 0 <= py < fh implies #[trigger] fb.spec_pixel(px, py) == (
                    if covered_below(g, cs, px, py, y as int, x as int + 1) {
                        white
                    } else {
                        pixel_at(opix, fw, px, py)
                    }) by {
                        lemma_div_mod_decompose(px, cs);
                        lemma_div_mod_decompose(py, cs);
                    }
                }
            } else {
                proof {
                    assert forall|px: int, py: int|
                        0 <= px < fw && 0 <= py < fh implies #[trigger] fb.spec_pixel(px, py) == (
                    if covered_below(g, cs, px, py, y as int, x as int + 1) {
                        white
                    } else {
                        pixel_at(opix, fw, px, py)
                    }) by {
                        lemma_div_mod_decompose(px, cs);
                        lemma_div_mod_decompose(py, cs);
                    }
                }
            }
            x = x + 1;
        }
        y = y + 1;
    }
}

} // verus!
