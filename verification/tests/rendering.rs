use phys_3d::draw_helpers::{Canvas, Color};
use phys_3d::rendering::{nearest_hit_color, RayHit, ScreenCell, NO_HIT_DEPTH};

fn hit(t: f32, on_border: bool, color: Color) -> RayHit {
    RayHit { did_hit: true, depth: t.abs().to_bits(), on_border, color }
}

fn miss() -> RayHit {
    RayHit { did_hit: false, depth: 0, on_border: false, color: Color::new(0, 0, 0, 0) }
}

#[test]
fn depth_limit_is_one_hundred_million() {
    assert_eq!(NO_HIT_DEPTH, 1e8_f32.to_bits());
}

#[test]
fn no_hit_gives_background() {
    assert_eq!(nearest_hit_color(&vec![]), Color::new(100, 100, 100, 255));
    assert_eq!(nearest_hit_color(&vec![miss(), miss()]), Color::new(100, 100, 100, 255));
    let far = hit(2e8, false, Color::new(1, 2, 3, 4));
    assert_eq!(nearest_hit_color(&vec![far]), Color::new(100, 100, 100, 255));
}

#[test]
fn nearest_hit_wins() {
    let a = Color::new(10, 0, 0, 255);
    let b = Color::new(0, 20, 0, 255);
    let hits = vec![hit(5.0, false, a), miss(), hit(3.0, false, b), hit(4.0, false, a)];
    assert_eq!(nearest_hit_color(&hits), b);
}

#[test]
fn first_of_equally_near_hits_wins() {
    let a = Color::new(10, 0, 0, 255);
    let b = Color::new(0, 20, 0, 255);
    let hits = vec![hit(3.0, false, a), hit(3.0, false, b)];
    assert_eq!(nearest_hit_color(&hits), a);
}

#[test]
fn edge_hit_is_black() {
    let a = Color::new(10, 0, 0, 255);
    let hits = vec![hit(5.0, false, a), hit(1.5, true, a)];
    assert_eq!(nearest_hit_color(&hits), Color::new(0, 0, 0, 255));
}

#[test]
fn update_screen_draws_cells_in_order() {
    let mut c = Canvas::new();
    c.init();
    let red = Color::new(255, 0, 0, 255);
    let blue = Color::new(0, 0, 255, 255);
    let cells = vec![
        ScreenCell { x: 10, y: 10, color: red },
        ScreenCell { x: 30, y: 10, color: blue },
    ];
    c.update_screen(&cells, 10);
    let b = c.buffer();
    let at = |i: usize, j: usize| {
        let k = (i + j * 500) * 4;
        [b[k], b[k + 1], b[k + 2], b[k + 3]]
    };
    assert_eq!(at(15, 15), [255, 0, 0, 255]);
    assert_eq!(at(35, 15), [0, 0, 255, 255]);
    assert_eq!(at(10, 15), [100, 100, 100, 255]);
    assert_eq!(c.fill_color(), blue);

    let mut d = Canvas::new();
    d.init();
    d.fill(red);
    d.square(10, 10, 10);
    d.fill(blue);
    d.square(30, 10, 10);
    assert!(d.buffer() == c.buffer());
}

#[test]
fn update_screen_with_no_cells_changes_nothing() {
    let mut c = Canvas::new();
    c.init();
    c.update_screen(&vec![], 10);
    assert!(c.buffer().iter().all(|b| *b == 0));
    assert_eq!(c.fill_color(), Color::new(255, 255, 255, 255));
}
