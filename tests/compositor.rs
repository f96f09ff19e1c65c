use wallpaper::{render, Circle, Colour, Mandlebrot, Point, Rect, Shape};

fn rgb(r: u8, g: u8, b: u8) -> Colour {
    Colour { r, g, b }
}

#[test]
fn full_canvas_rectangle_paints_every_pixel() {
    let red = rgb(255, 0, 0);
    let scene = vec![Shape::Rect(Rect { origin: Point(0, 0), length: 4, height: 4, colour: red })];
    let c = render(4, 4, rgb(0, 0, 0), &scene);
    assert_eq!(c.pixels.len(), 16);
    for y in 0..4 {
        for x in 0..4 {
            assert_eq!(c.get_pixel(x, y), red);
        }
    }
}

#[test]
fn later_shape_wins_overlap() {
    let a = Rect { origin: Point(0, 0), length: 2, height: 2, colour: rgb(1, 0, 0) };
    let b = Circle { origin: Point(3, 3), radius: 2, colour: rgb(0, 1, 0) };
    let c = render(4, 4, rgb(0, 0, 0), &vec![Shape::Rect(a), Shape::Circle(b)]);
    assert_eq!(c.get_pixel(2, 2), rgb(0, 1, 0));
    assert_eq!(c.get_pixel(0, 0), rgb(1, 0, 0));
    assert_eq!(c.get_pixel(3, 3), rgb(0, 1, 0));
    let c = render(4, 4, rgb(0, 0, 0), &vec![Shape::Circle(b), Shape::Rect(a)]);
    assert_eq!(c.get_pixel(2, 2), rgb(1, 0, 0));
    assert_eq!(c.get_pixel(3, 3), rgb(0, 1, 0));
    assert_eq!(c.get_pixel(3, 0), rgb(0, 0, 0));
}

#[test]
fn empty_scene_keeps_background() {
    let c = render(3, 2, rgb(5, 6, 7), &vec![]);
    assert_eq!(c.width, 3);
    assert_eq!(c.height, 2);
    assert_eq!(c.pixels, vec![rgb(5, 6, 7); 6]);
}

#[test]
fn empty_canvas() {
    let c = render(0, 5, rgb(5, 6, 7), &vec![]);
    assert!(c.pixels.is_empty());
}

#[test]
fn fractal_escaping_at_once_keeps_background() {
    let bg = rgb(40, 50, 60);
    let scene = vec![Shape::Mandlebrot(Mandlebrot { max_iterations: 256, width: 2, escapes: vec![Some(0); 4] })];
    let c = render(2, 2, bg, &scene);
    assert_eq!(c.pixels, vec![bg; 4]);
}

#[test]
fn pixels_are_row_major() {
    let scene = vec![Shape::Rect(Rect { origin: Point(2, 0), length: 0, height: 0, colour: rgb(9, 9, 9) })];
    let c = render(3, 2, rgb(0, 0, 0), &scene);
    assert_eq!(c.pixels[2], rgb(9, 9, 9));
    assert_eq!(c.get_pixel(2, 0), rgb(9, 9, 9));
    assert_eq!(c.get_pixel(2, 1), rgb(0, 0, 0));
}
