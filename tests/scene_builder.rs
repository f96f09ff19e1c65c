use rand::rngs::StdRng;
use rand::SeedableRng;
use wallpaper::{
    build_bars, build_circles, build_rectangles, build_scene, circle_from_draws, rect_from_draws,
    render, Circle, Colour, Mandlebrot, Point, Rect, SceneConfig, SceneError, Shape, Style,
};

fn rgb(r: u8, g: u8, b: u8) -> Colour {
    Colour { r, g, b }
}

fn config(style: Style) -> SceneConfig {
    SceneConfig {
        width: 9,
        height: 4,
        style,
        shape_count: 10,
        bars: 3,
        vertical_bars: false,
        max_radius: 5,
        max_length: 6,
        max_height: 7,
        max_iterations: 256,
    }
}

fn palette() -> Vec<Colour> {
    vec![rgb(255, 0, 0), rgb(0, 255, 0), rgb(0, 0, 255), rgb(9, 9, 9)]
}

fn rect_of(s: &Shape) -> Rect {
    match s {
        Shape::Rect(r) => *r,
        _ => panic!("not a rectangle"),
    }
}

#[test]
fn horizontal_bars_shrink_and_nest() {
    let mut rng = StdRng::seed_from_u64(3);
    let cfg = config(Style::Bars);
    let bars = build_bars(&mut rng, &cfg, &palette());
    let lengths: Vec<u32> = bars.iter().map(|s| rect_of(s).length).collect();
    assert_eq!(lengths, vec![9, 6, 3]);
    for s in &bars {
        let r = rect_of(s);
        assert_eq!(r.origin, Point(0, 0));
        assert_eq!(r.height, 4);
        assert!(palette().contains(&r.colour));
    }
    let c = render(9, 4, rgb(0, 0, 0), &bars);
    assert_eq!(c.get_pixel(8, 1), rect_of(&bars[0]).colour);
    assert_eq!(c.get_pixel(2, 1), rect_of(&bars[2]).colour);
    assert_eq!(c.get_pixel(5, 1), rect_of(&bars[1]).colour);
}

#[test]
fn vertical_bars_grow_along_height() {
    let mut rng = StdRng::seed_from_u64(4);
    let mut cfg = config(Style::Bars);
    cfg.vertical_bars = true;
    cfg.height = 10;
    let bars = build_bars(&mut rng, &cfg, &palette());
    let heights: Vec<u32> = bars.iter().map(|s| rect_of(s).height).collect();
    assert_eq!(heights, vec![12, 8, 4]);
    assert!(bars.iter().all(|s| rect_of(s).length == 9));
}

#[test]
fn no_bars_gives_empty_scene() {
    let mut rng = StdRng::seed_from_u64(5);
    let mut cfg = config(Style::Bars);
    cfg.bars = 0;
    assert!(build_scene(&cfg, &palette(), vec![], &mut rng).unwrap().is_empty());
}

#[test]
fn circles_stay_in_bounds() {
    let mut rng = StdRng::seed_from_u64(6);
    let cfg = config(Style::Circle);
    let shapes = build_circles(&mut rng, &cfg, &palette());
    assert_eq!(shapes.len(), 10);
    for s in &shapes {
        match s {
            Shape::Circle(c) => {
                assert!(c.origin.0 < 9 && c.origin.1 < 4 && c.radius < 5);
                assert!(palette().contains(&c.colour));
            }
            _ => panic!("not a circle"),
        }
    }
}

#[test]
fn rectangles_stay_in_bounds() {
    let mut rng = StdRng::seed_from_u64(7);
    let cfg = config(Style::Rectangle);
    let shapes = build_rectangles(&mut rng, &cfg, &palette());
    assert_eq!(shapes.len(), 10);
    for s in &shapes {
        let r = rect_of(s);
        assert!(r.origin.0 < 9 && r.origin.1 < 4 && r.length < 6 && r.height < 7);
        assert!(palette().contains(&r.colour));
    }
}

#[test]
fn single_colour_palette_colours_every_shape() {
    let mut rng = StdRng::seed_from_u64(8);
    let only = vec![rgb(1, 2, 3)];
    let shapes = build_scene(&config(Style::Circle), &only, vec![], &mut rng).unwrap();
    for s in &shapes {
        match s {
            Shape::Circle(c) => assert_eq!(c.colour, rgb(1, 2, 3)),
            _ => panic!("not a circle"),
        }
    }
}

#[test]
fn draws_are_reduced_into_bounds() {
    let c = circle_from_draws(23, 10, 12, 9, 4, 5, rgb(1, 1, 1));
    assert_eq!(c, Circle { origin: Point(5, 2), radius: 2, colour: rgb(1, 1, 1) });
    let r = rect_from_draws(8, 4, 13, 7, 9, 4, 6, 7, rgb(2, 2, 2));
    assert_eq!(r, Rect { origin: Point(8, 0), length: 1, height: 0, colour: rgb(2, 2, 2) });
}

#[test]
fn fractal_scene_is_one_field() {
    let mut rng = StdRng::seed_from_u64(9);
    let escapes = vec![Some(3); 36];
    let shapes = build_scene(&config(Style::Mandlebrot), &vec![], escapes.clone(), &mut rng).unwrap();
    assert_eq!(shapes.len(), 1);
    match &shapes[0] {
        Shape::Mandlebrot(Mandlebrot { max_iterations, width, escapes: e }) => {
            assert_eq!(*max_iterations, 256);
            assert_eq!(*width, 9);
            assert_eq!(*e, escapes);
        }
        _ => panic!("not a fractal"),
    }
}

#[test]
fn scene_errors() {
    let mut rng = StdRng::seed_from_u64(10);
    assert_eq!(build_scene(&config(Style::Circle), &vec![], vec![], &mut rng).unwrap_err(), SceneError::EmptyPalette);
    assert_eq!(build_scene(&config(Style::Bars), &vec![], vec![], &mut rng).unwrap_err(), SceneError::EmptyPalette);
    let mut cfg = config(Style::Circle);
    cfg.max_radius = 0;
    assert_eq!(build_scene(&cfg, &palette(), vec![], &mut rng).unwrap_err(), SceneError::ZeroBound);
    let mut cfg = config(Style::Rectangle);
    cfg.width = 0;
    assert_eq!(build_scene(&cfg, &palette(), vec![], &mut rng).unwrap_err(), SceneError::ZeroBound);
    cfg.shape_count = 0;
    assert!(build_scene(&cfg, &palette(), vec![], &mut rng).unwrap().is_empty());
    let mut cfg = config(Style::Bars);
    cfg.bars = 2;
    cfg.width = u32::MAX;
    assert_eq!(build_scene(&cfg, &palette(), vec![], &mut rng).unwrap_err(), SceneError::Oversized);
}

#[test]
fn style_names() {
    assert_eq!(Style::from_name("Circle"), Ok(Style::Circle));
    assert_eq!(Style::from_name("Rectangle"), Ok(Style::Rectangle));
    assert_eq!(Style::from_name("Bars"), Ok(Style::Bars));
    assert_eq!(Style::from_name("Mandlebrot"), Ok(Style::Mandlebrot));
    assert_eq!(Style::from_name("Triangle"), Err(SceneError::UnsupportedStyle));
    assert_eq!(Style::from_name("circle"), Err(SceneError::UnsupportedStyle));
    assert_eq!(Style::from_name(""), Err(SceneError::UnsupportedStyle));
}
