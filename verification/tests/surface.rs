//! Tests for the framebuffer: construction defaults, clearing, pixel
//! clamping, line rasterization, and the cell-block renderer.

use game_of_life::framebuffer::{Color, Framebuffer};
use game_of_life::grid::Grid;
use game_of_life::render::draw_grid;

fn black() -> Color {
    Color { r: 0, g: 0, b: 0, a: 255 }
}

fn white() -> Color {
    Color { r: 255, g: 255, b: 255, a: 255 }
}

fn assert_all_pixels(fb: &Framebuffer, c: Color) {
    for y in 0..fb.height() {
        for x in 0..fb.width() {
            assert_eq!(fb.get_pixel(x, y), Some(c), "pixel ({}, {})", x, y);
        }
    }
}

#[test]
fn new_fills_with_black_and_reports_bounds() {
    let fb = Framebuffer::new(4, 3);
    assert_eq!(fb.width(), 4);
    assert_eq!(fb.height(), 3);
    assert_all_pixels(&fb, black());
    assert_eq!(fb.get_pixel(4, 0), None);
    assert_eq!(fb.get_pixel(0, 3), None);
}

#[test]
fn draw_pixel_uses_the_current_color() {
    let mut fb = Framebuffer::new(5, 5);
    fb.draw_pixel(2, 3);
    assert_eq!(fb.get_pixel(2, 3), Some(white()));
    let red = Color { r: 255, g: 0, b: 0, a: 255 };
    fb.set_current_color(red);
    fb.draw_pixel(1, 1);
    assert_eq!(fb.get_pixel(1, 1), Some(red));
    assert_eq!(fb.get_pixel(2, 3), Some(white()));
}

#[test]
fn draw_pixel_out_of_range_is_a_silent_no_op() {
    let mut fb = Framebuffer::new(5, 5);
    fb.draw_pixel(-1, 2);
    fb.draw_pixel(2, -1);
    fb.draw_pixel(5, 2);
    fb.draw_pixel(2, 5);
    fb.draw_pixel(i32::MIN, i32::MAX);
    assert_all_pixels(&fb, black());
}

#[test]
fn clear_resets_every_pixel_to_the_background_color() {
    let mut fb = Framebuffer::new(6, 4);
    fb.draw_pixel(1, 1);
    fb.draw_line(0, 0, 5, 3);
    let blue = Color { r: 0, g: 0, b: 255, a: 255 };
    fb.set_background_color(blue);
    fb.clear();
    assert_all_pixels(&fb, blue);
}

#[test]
fn set_background_color_alone_leaves_the_image_untouched() {
    let mut fb = Framebuffer::new(3, 3);
    fb.set_background_color(Color { r: 9, g: 9, b: 9, a: 255 });
    assert_all_pixels(&fb, black());
}

#[test]
fn draw_line_horizontal_covers_both_endpoints() {
    let mut fb = Framebuffer::new(8, 8);
    fb.draw_line(1, 2, 5, 2);
    for x in 1..=5 {
        assert_eq!(fb.get_pixel(x, 2), Some(white()), "x = {}", x);
    }
    assert_eq!(fb.get_pixel(0, 2), Some(black()));
    assert_eq!(fb.get_pixel(6, 2), Some(black()));
    assert_eq!(fb.get_pixel(3, 3), Some(black()));
}

#[test]
fn draw_line_diagonal_steps_once_per_column() {
    let mut fb = Framebuffer::new(6, 6);
    fb.draw_line(0, 0, 3, 3);
    for i in 0..=3 {
        assert_eq!(fb.get_pixel(i, i), Some(white()), "i = {}", i);
    }
    assert_eq!(fb.get_pixel(4, 4), Some(black()));
    assert_eq!(fb.get_pixel(0, 1), Some(black()));
}

#[test]
fn draw_line_reversed_endpoints_draws_the_same_pixels() {
    let mut a = Framebuffer::new(8, 8);
    let mut b = Framebuffer::new(8, 8);
    a.draw_line(1, 1, 6, 4);
    b.draw_line(6, 4, 1, 1);
    for y in 0..8 {
        for x in 0..8 {
            assert_eq!(a.get_pixel(x, y), b.get_pixel(x, y), "pixel ({}, {})", x, y);
        }
    }
}

#[test]
fn draw_line_past_the_edge_is_clamped_not_an_error() {
    let mut fb = Framebuffer::new(4, 4);
    fb.draw_line(-2, -2, 2, 2);
    for i in 0..=2 {
        assert_eq!(fb.get_pixel(i, i), Some(white()));
    }
    assert_eq!(fb.get_pixel(3, 3), Some(black()));
}

#[test]
fn draw_grid_fills_blocks_of_live_cells_only() {
    let mut fb = Framebuffer::new(6, 6);
    let mut g = Grid::new(3, 3);
    g.set(1, 1, true);
    draw_grid(&mut fb, &g, 2);
    for y in 0..6u32 {
        for x in 0..6u32 {
            let inside = (2..4).contains(&x) && (2..4).contains(&y);
            let expected = if inside { white() } else { black() };
            assert_eq!(fb.get_pixel(x, y), Some(expected), "pixel ({}, {})", x, y);
        }
    }
}

#[test]
fn draw_grid_clamps_blocks_at_the_surface_edge() {
    let mut fb = Framebuffer::new(5, 4);
    let mut g = Grid::new(2, 1);
    g.set(1, 0, true);
    draw_grid(&mut fb, &g, 4);
    for y in 0..4u32 {
        for x in 0..5u32 {
            let expected = if x == 4 { white() } else { black() };
            assert_eq!(fb.get_pixel(x, y), Some(expected), "pixel ({}, {})", x, y);
        }
    }
}
