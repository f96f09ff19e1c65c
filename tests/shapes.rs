use wallpaper::{brighten, iteration_index, Circle, Colour, Mandlebrot, Point, Rect, Shape};

fn rgb(r: u8, g: u8, b: u8) -> Colour {
    Colour { r, g, b }
}

#[test]
fn circle_hit_is_strict() {
    let c = Circle { origin: Point(0, 0), radius: 10, colour: rgb(1, 2, 3) };
    let mut px = rgb(0, 0, 0);
    assert!(c.draw(&mut px, 9, 0));
    assert_eq!(px, rgb(1, 2, 3));
    let mut px = rgb(0, 0, 0);
    assert!(!c.draw(&mut px, 10, 0));
    assert_eq!(px, rgb(0, 0, 0));
    let mut px = rgb(0, 0, 0);
    assert!(!c.draw(&mut px, 8, 8));
    assert!(c.draw(&mut px, 7, 7));
}

#[test]
fn circle_hit_left_of_origin() {
    let c = Circle { origin: Point(20, 20), radius: 5, colour: rgb(9, 9, 9) };
    let mut px = rgb(0, 0, 0);
    assert!(c.draw(&mut px, 16, 20));
    assert!(!c.draw(&mut px, 15, 20));
    assert!(c.draw(&mut px, 20, 24));
}

#[test]
fn rectangle_hit_includes_bounds() {
    let r = Rect { origin: Point(0, 0), length: 5, height: 5, colour: rgb(4, 5, 6) };
    let mut px = rgb(0, 0, 0);
    assert!(r.draw(&mut px, 5, 5));
    assert_eq!(px, rgb(4, 5, 6));
    let mut px = rgb(0, 0, 0);
    assert!(!r.draw(&mut px, 6, 5));
    assert_eq!(px, rgb(0, 0, 0));
    assert!(!r.draw(&mut px, 5, 6));
    assert!(r.draw(&mut px, 0, 0));
}

#[test]
fn rectangle_far_from_origin() {
    let r = Rect { origin: Point(u32::MAX - 1, 3), length: u32::MAX, height: 0, colour: rgb(7, 7, 7) };
    let mut px = rgb(0, 0, 0);
    assert!(r.draw(&mut px, u32::MAX, 3));
    assert!(!r.draw(&mut px, u32::MAX, 4));
    assert!(!r.draw(&mut px, 3, 3));
}

#[test]
fn brighten_values() {
    assert_eq!(brighten(&rgb(10, 20, 30), 0), rgb(10, 20, 30));
    assert_eq!(brighten(&rgb(0, 0, 0), 100), rgb(17, 17, 17));
    assert_eq!(brighten(&rgb(0, 0, 0), 255), rgb(43, 43, 43));
    assert_eq!(brighten(&rgb(100, 255, 100), 150), rgb(115, 255, 115));
    assert_eq!(brighten(&rgb(255, 255, 255), 255), rgb(255, 255, 255));
}

#[test]
fn iteration_index_values() {
    assert_eq!(iteration_index(256, Some(0)), 0);
    assert_eq!(iteration_index(256, Some(1)), 0);
    assert_eq!(iteration_index(256, Some(5)), 4);
    assert_eq!(iteration_index(256, None), 255);
    assert_eq!(iteration_index(0, None), 0);
}

#[test]
fn fractal_brightens_by_escape_step() {
    let m = Mandlebrot { max_iterations: 256, width: 2, escapes: vec![Some(0), None, Some(101), None] };
    let mut px = rgb(0, 0, 0);
    assert!(m.draw(&mut px, 0, 0));
    assert_eq!(px, rgb(0, 0, 0));
    let mut px = rgb(0, 0, 0);
    assert!(m.draw(&mut px, 1, 0));
    assert_eq!(px, rgb(43, 43, 43));
    let mut px = rgb(0, 0, 0);
    assert!(m.draw(&mut px, 0, 1));
    assert_eq!(px, rgb(17, 17, 17));
    let mut px = rgb(0, 0, 0);
    assert!(!m.draw(&mut px, 2, 0));
    assert!(!m.draw(&mut px, 0, 2));
}

#[test]
fn fractal_factor_keeps_low_eight_bits() {
    let m = Mandlebrot { max_iterations: 1000, width: 1, escapes: vec![None] };
    let mut px = rgb(0, 0, 0);
    assert!(m.draw(&mut px, 0, 0));
    assert_eq!(px, brighten(&rgb(0, 0, 0), (999 % 256) as u8));
}

#[test]
fn shape_dispatch() {
    let s = Shape::Rect(Rect { origin: Point(1, 1), length: 1, height: 1, colour: rgb(3, 3, 3) });
    let mut px = rgb(0, 0, 0);
    assert!(!s.draw(&mut px, 0, 0));
    assert!(s.draw(&mut px, 2, 2));
    assert_eq!(px, rgb(3, 3, 3));
}
