use std::cell::Cell;

use softframe::canvas::Canvas;
use softframe::canvas::Color;
use softframe::depth::Depth;

const WHITE: u32 = 0xffff_ffff;
const RED: u32 = 0xff00_00ff;
const GREEN: u32 = 0xff00_ff00;
const BLUE: u32 = 0xffff_0000;

fn depth(value: f32) -> Depth {
    Depth::from_bits(value.to_bits())
}

/// The linear index of cartesian `(i, j)` on a 4x4 canvas.
fn idx4(i: i32, j: i32) -> usize {
    ((i + 2) + (2 - j) * 4) as usize
}

#[test]
fn canvas_new_is_white_and_sized() {
    let cv = Canvas::new(4, 3);
    assert_eq!(cv.get_width(), 4);
    assert_eq!(cv.get_height(), 3);
    let plane = cv.raw();
    assert_eq!(plane.len(), 12);
    assert!(plane.iter().all(|&cell| cell == WHITE));
}

#[test]
fn canvas_put_pixel_reads_back() {
    let mut cv = Canvas::new(4, 4);
    cv.put_pixel(0, 0, Color::red());
    assert_eq!(cv.raw()[idx4(0, 0)], RED);
    // every other cell is untouched
    for i in -2..=1 {
        for j in -1..=2 {
            if (i, j) != (0, 0) {
                assert_eq!(cv.raw()[idx4(i, j)], WHITE);
            }
        }
    }
    // the stored depth is the NaN sentinel: any finite draw lands
    cv.draw_pixel(0, 0, depth(1.0e9), Color::green());
    assert_eq!(cv.raw()[idx4(0, 0)], GREEN);
}

#[test]
fn canvas_farther_draw_is_rejected() {
    let mut cv = Canvas::new(4, 4);
    cv.draw_pixel(1, -1, depth(1.0), Color::red());
    cv.draw_pixel(1, -1, depth(2.0), Color::blue());
    assert_eq!(cv.raw()[idx4(1, -1)], RED);
}

#[test]
fn canvas_closer_draw_wins() {
    let mut cv = Canvas::new(4, 4);
    cv.draw_pixel(1, -1, depth(2.0), Color::red());
    cv.draw_pixel(1, -1, depth(1.0), Color::blue());
    assert_eq!(cv.raw()[idx4(1, -1)], BLUE);
}

#[test]
fn canvas_equal_depth_first_writer_wins() {
    let mut cv = Canvas::new(4, 4);
    cv.draw_pixel(-2, 2, depth(1.5), Color::red());
    cv.draw_pixel(-2, 2, depth(1.5), Color::blue());
    assert_eq!(cv.raw()[idx4(-2, 2)], RED);
}

#[test]
fn canvas_nan_sentinel_disables_depth_test() {
    let mut cv = Canvas::new(4, 4);
    cv.draw_pixel(0, 1, depth(0.25), Color::red());
    // a NaN depth always lands, even over a nearer stored depth
    cv.draw_pixel(0, 1, depth(f32::NAN), Color::blue());
    assert_eq!(cv.raw()[idx4(0, 1)], BLUE);
    // and leaves the pixel accepting any later draw, however far
    cv.draw_pixel(0, 1, depth(1000.0), Color::green());
    assert_eq!(cv.raw()[idx4(0, 1)], GREEN);
    // that draw stored a finite depth, so the test is live again
    cv.draw_pixel(0, 1, depth(f32::INFINITY), Color::red());
    assert_eq!(cv.raw()[idx4(0, 1)], GREEN);
    cv.draw_pixel(0, 1, depth(1.0), Color::red());
    assert_eq!(cv.raw()[idx4(0, 1)], RED);
}

#[test]
fn canvas_clear_color_repaints_every_cell() {
    let mut cv = Canvas::new(4, 4);
    cv.put_pixel(0, 0, Color::red());
    cv.clear_color(Color::blue());
    assert!(cv.raw().iter().all(|&cell| cell == BLUE));
}

#[test]
fn canvas_clear_depth_resets_the_test() {
    let mut cv = Canvas::new(4, 4);
    cv.clear_depth(depth(5.0));
    // a draw at a farther or equal depth is rejected
    cv.draw_pixel(0, 0, depth(6.0), Color::red());
    cv.draw_pixel(0, 0, depth(5.0), Color::red());
    assert_eq!(cv.raw()[idx4(0, 0)], WHITE);
    // a nearer one lands
    cv.draw_pixel(0, 0, depth(4.0), Color::green());
    assert_eq!(cv.raw()[idx4(0, 0)], GREEN);
}

#[test]
fn canvas_fill_ij_covers_the_centered_range_once() {
    let mut cv = Canvas::new(4, 4);
    let calls = Cell::new(0u32);
    cv.fill_ij(|i: i32, j: i32| {
        calls.set(calls.get() + 1);
        Color::from_rgba((i + 2) as u8, (2 - j) as u8, 7, 8)
    });
    assert_eq!(calls.get(), 16);
    for i in -2..=1 {
        for j in -1..=2 {
            let cell = cv.raw()[idx4(i, j)];
            let expected = Color::from_rgba((i + 2) as u8, (2 - j) as u8, 7, 8);
            assert_eq!(cell & 0xff, expected.get_red() as u32);
            assert_eq!((cell >> 8) & 0xff, expected.get_green() as u32);
            assert_eq!((cell >> 16) & 0xff, expected.get_blue() as u32);
            assert_eq!((cell >> 24) & 0xff, expected.get_alpha() as u32);
        }
    }
}

#[test]
fn canvas_fill_ij_paints_unconditionally() {
    let mut cv = Canvas::new(4, 4);
    cv.clear_depth(depth(-1.0e9));
    // the unconditional path ignores the hostile stored depths ...
    cv.fill_ij(|_i: i32, _j: i32| Color::red());
    assert!(cv.raw().iter().all(|&cell| cell == RED));
    // ... and leaves every pixel's depth test disabled
    cv.draw_pixel(0, 0, depth(1.0e9), Color::blue());
    assert_eq!(cv.raw()[idx4(0, 0)], BLUE);
}

#[test]
fn canvas_depth_scenario() {
    let mut cv = Canvas::new(4, 4);
    cv.clear_color(Color::white());
    cv.clear_depth(depth(f32::INFINITY));
    cv.draw_pixel(0, 0, depth(1.0), Color::red());
    cv.draw_pixel(0, 0, depth(2.0), Color::blue());
    assert_eq!(cv.raw()[idx4(0, 0)], RED);
    cv.draw_pixel(0, 0, depth(0.5), Color::green());
    assert_eq!(cv.raw()[idx4(0, 0)], GREEN);
}

#[test]
fn canvas_empty_has_no_cells() {
    let mut cv = Canvas::new(0, 0);
    assert_eq!(cv.get_width(), 0);
    assert_eq!(cv.get_height(), 0);
    assert_eq!(cv.raw().len(), 0);
    let calls = Cell::new(0u32);
    cv.fill_ij(|_i: i32, _j: i32| {
        calls.set(calls.get() + 1);
        Color::black()
    });
    assert_eq!(calls.get(), 0);
}

#[test]
fn canvas_odd_dimensions_center_on_the_middle_cell() {
    let mut cv = Canvas::new(3, 3);
    cv.put_pixel(0, 0, Color::red());
    // columns run -1..=1 and rows 1..=-1, so (0, 0) is the middle cell
    assert_eq!(cv.raw()[4], RED);
    cv.put_pixel(-1, 1, Color::blue());
    assert_eq!(cv.raw()[0], BLUE);
    cv.put_pixel(1, -1, Color::green());
    assert_eq!(cv.raw()[8], GREEN);
}

#[test]
fn canvas_packed_word_layout() {
    // byte 0 red, byte 1 green, byte 2 blue, byte 3 alpha
    let mut cv = Canvas::new(2, 2);
    cv.put_pixel(0, 0, Color::from_rgba(0x11, 0x22, 0x33, 0x44));
    assert_eq!(cv.raw()[((0 + 1) + (1 - 0) * 2) as usize], 0x4433_2211);
}
