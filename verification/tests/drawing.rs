use phys_3d::draw_helpers::{Canvas, Color, DrawMode};

fn px(c: &Canvas, i: usize, j: usize) -> [u8; 4] {
    let b = c.buffer();
    let base = (i + j * 500) * 4;
    [b[base], b[base + 1], b[base + 2], b[base + 3]]
}

const FILL: [u8; 4] = [255, 255, 255, 255];
const STROKE: [u8; 4] = [100, 100, 100, 255];
const BLANK: [u8; 4] = [0, 0, 0, 0];

fn ready() -> Canvas {
    let mut c = Canvas::new();
    c.init();
    c
}

#[test]
fn color_new_sets_channels() {
    let c = Color::new(1, 2, 3, 4);
    assert_eq!((c.red, c.green, c.blue, c.alpha), (1, 2, 3, 4));
}

#[test]
fn new_canvas_defaults() {
    let c = Canvas::new();
    assert_eq!(c.buffer().len(), 0);
    assert_eq!(c.stroke_color(), Color::new(100, 100, 100, 255));
    assert_eq!(c.fill_color(), Color::new(255, 255, 255, 255));
    assert_eq!(c.ellipse_draw_mode(), DrawMode::CENTER);
    assert_eq!(c.rect_draw_mode(), DrawMode::TOPLEFT);
}

#[test]
fn init_appends_one_blank_screen() {
    let mut c = Canvas::new();
    c.init();
    assert_eq!(c.buffer().len(), 1_000_000);
    assert!(c.buffer().iter().all(|b| *b == 0));
    c.init();
    assert_eq!(c.buffer().len(), 2_000_000);
}

#[test]
fn square_top_left_frame_and_interior() {
    let mut c = ready();
    c.square(10, 10, 5);
    // frame columns and rows 9 ..= 15, interior 11 ..= 14
    assert_eq!(px(&c, 12, 12), FILL);
    assert_eq!(px(&c, 11, 11), FILL);
    assert_eq!(px(&c, 14, 14), FILL);
    assert_eq!(px(&c, 10, 12), STROKE);
    assert_eq!(px(&c, 9, 12), STROKE);
    assert_eq!(px(&c, 15, 12), STROKE);
    assert_eq!(px(&c, 12, 9), STROKE);
    assert_eq!(px(&c, 12, 15), STROKE);
    assert_eq!(px(&c, 9, 9), STROKE);
    assert_eq!(px(&c, 16, 12), BLANK);
    assert_eq!(px(&c, 8, 12), BLANK);
    assert_eq!(px(&c, 12, 16), BLANK);
    assert_eq!(px(&c, 12, 8), BLANK);
    let painted = c.buffer().iter().filter(|b| **b != 0).count();
    assert_eq!(painted, 7 * 7 * 4);
}

#[test]
fn square_equals_rect_with_equal_sides() {
    let mut a = ready();
    let mut b = ready();
    a.square(40, 30, 7);
    b.rect(40, 30, 7, 7);
    assert!(a.buffer() == b.buffer());
}

#[test]
fn rect_center_mode() {
    let mut c = ready();
    c.set_rect_draw_mode(DrawMode::CENTER);
    c.rect(100, 100, 20, 10);
    // corner (90, 95); frame columns 89 ..= 110, rows 94 ..= 105
    assert_eq!(px(&c, 100, 100), FILL);
    assert_eq!(px(&c, 90, 100), STROKE);
    assert_eq!(px(&c, 89, 100), STROKE);
    assert_eq!(px(&c, 110, 100), STROKE);
    assert_eq!(px(&c, 111, 100), BLANK);
    assert_eq!(px(&c, 100, 94), STROKE);
    assert_eq!(px(&c, 100, 105), STROKE);
    assert_eq!(px(&c, 100, 106), BLANK);
    assert_eq!(px(&c, 100, 93), BLANK);
}

#[test]
fn rect_other_modes() {
    let mut c = ready();
    c.set_rect_draw_mode(DrawMode::BOTTOMRIGHT);
    c.rect(50, 50, 10, 10);
    // corner (40, 40)
    assert_eq!(px(&c, 45, 45), FILL);
    assert_eq!(px(&c, 39, 39), STROKE);
    assert_eq!(px(&c, 50, 50), STROKE);
    assert_eq!(px(&c, 51, 50), BLANK);
    let mut d = ready();
    d.set_rect_draw_mode(DrawMode::BOTTOMLEFT);
    d.rect(50, 50, 10, 10);
    // corner (50, 40)
    assert_eq!(px(&d, 55, 45), FILL);
    assert_eq!(px(&d, 49, 45), STROKE);
    assert_eq!(px(&d, 48, 45), BLANK);
    let mut e = ready();
    e.set_rect_draw_mode(DrawMode::TOPRIGHT);
    e.rect(50, 50, 10, 10);
    // corner (40, 50)
    assert_eq!(px(&e, 45, 55), FILL);
    assert_eq!(px(&e, 45, 49), STROKE);
    assert_eq!(px(&e, 45, 48), BLANK);
}

#[test]
fn drawing_twice_is_drawing_once() {
    let mut a = ready();
    a.square(20, 20, 8);
    let once: Vec<u8> = a.buffer().clone();
    a.square(20, 20, 8);
    assert!(a.buffer() == &once);
    a.circle(100, 100, 30);
    let once: Vec<u8> = a.buffer().clone();
    a.circle(100, 100, 30);
    assert!(a.buffer() == &once);
}

#[test]
fn drawing_off_the_buffer_is_skipped() {
    let mut c = Canvas::new();
    c.square(10, 10, 5);
    c.circle(50, 50, 10);
    assert_eq!(c.buffer().len(), 0);
    let mut d = ready();
    // rows 499 ..= 505: only row 499 lies in the buffer
    d.square(10, 500, 5);
    assert_eq!(px(&d, 10, 499), STROKE);
    assert_eq!(d.buffer().len(), 1_000_000);
}

#[test]
fn circle_center_mode_rings() {
    let mut c = ready();
    c.circle(50, 50, 10);
    assert_eq!(px(&c, 50, 50), FILL);
    assert_eq!(px(&c, 52, 53), FILL); // 4 + 9 < 25
    assert_eq!(px(&c, 53, 54), STROKE); // 9 + 16 == 25
    assert_eq!(px(&c, 50, 45), STROKE);
    assert_eq!(px(&c, 45, 50), STROKE);
    assert_eq!(px(&c, 54, 54), BLANK); // 32 > 30
    assert_eq!(px(&c, 50, 55), BLANK); // outside the scanned box
    assert_eq!(px(&c, 55, 50), BLANK);
}

#[test]
fn circle_top_left_mode() {
    let mut c = ready();
    c.set_ellipse_draw_mode(DrawMode::TOPLEFT);
    c.circle(20, 20, 10);
    // centre (25, 25), box 20 .. 30
    assert_eq!(px(&c, 25, 25), FILL);
    assert_eq!(px(&c, 20, 25), STROKE);
    assert_eq!(px(&c, 20, 20), BLANK);
    assert_eq!(px(&c, 30, 25), BLANK);
}

#[test]
fn circle_uses_current_colors() {
    let mut c = ready();
    c.fill(Color::new(1, 2, 3, 4));
    c.stroke(Color::new(5, 6, 7, 8));
    c.circle(50, 50, 10);
    assert_eq!(px(&c, 50, 50), [1, 2, 3, 4]);
    assert_eq!(px(&c, 50, 45), [5, 6, 7, 8]);
}

#[test]
fn rect_fits_rejects_underflow_and_overflow() {
    let c = Canvas::new();
    assert!(!c.rect_fits(0, 10, 5, 5));
    assert!(c.rect_fits(1, 1, 5, 5));
    assert!(!c.rect_fits(10, 10, u32::MAX - 10, 5));
    assert!(!c.rect_fits(10, 10_000_000, 5, 5));
    let mut d = Canvas::new();
    d.set_rect_draw_mode(DrawMode::CENTER);
    assert!(!d.rect_fits(5, 100, 10, 10));
    assert!(d.rect_fits(6, 100, 10, 10));
}

#[test]
fn pixel_sets_fill_color() {
    let mut c = ready();
    c.fill(Color::new(9, 8, 7, 6));
    c.pixel(3, 4);
    assert_eq!(px(&c, 3, 4), [9, 8, 7, 6]);
    assert_eq!(c.buffer()[(3 + 4 * 500) * 4], 9);
    assert_eq!(px(&c, 4, 4), BLANK);
}

#[test]
fn put_writes_one_pixel() {
    let mut c = ready();
    c.put(8, Color::new(1, 1, 2, 3));
    assert_eq!(&c.buffer()[4..16], &[0, 0, 0, 0, 1, 1, 2, 3, 0, 0, 0, 0]);
}

#[test]
fn fill_and_stroke_keep_pixels() {
    let mut c = ready();
    c.square(10, 10, 3);
    let before: Vec<u8> = c.buffer().clone();
    c.fill(Color::new(0, 0, 0, 1));
    c.stroke(Color::new(0, 0, 1, 0));
    assert!(c.buffer() == &before);
    assert_eq!(c.fill_color(), Color::new(0, 0, 0, 1));
    assert_eq!(c.stroke_color(), Color::new(0, 0, 1, 0));
}

#[test]
fn draw_mode_only_moves_the_square() {
    let mut a = ready();
    a.set_rect_draw_mode(DrawMode::CENTER);
    a.square(60, 70, 9);
    let mut b = ready();
    b.square(56, 66, 9);
    assert!(a.buffer() == b.buffer());
    let mut c = ready();
    c.set_rect_draw_mode(DrawMode::BOTTOMRIGHT);
    c.square(65, 75, 9);
    assert!(c.buffer() == b.buffer());
}

#[test]
fn drawing_a_wrapping_shape_twice_is_drawing_it_once() {
    // columns 494 ..= 506 run past the row width and wrap into the next row
    let mut a = ready();
    a.square(495, 20, 11);
    let once: Vec<u8> = a.buffer().clone();
    a.square(495, 20, 11);
    assert!(a.buffer() == &once);
    a.circle(497, 60, 20);
    let once: Vec<u8> = a.buffer().clone();
    a.circle(497, 60, 20);
    assert!(a.buffer() == &once);
}
