use vstd::prelude::*;
use vstd::string::*;
use rand::rngs::StdRng;
use rand::seq::SliceRandom;
use rand::Rng;
use crate::colour::Colour;
use crate::render::{composite, lemma_last_covering_shape_decides, lemma_unreached_tail_keeps_pixel};
use crate::shape::{paint, Circle, Mandlebrot, Point, Rect, Shape};

verus! {

/// `rand`'s seedable standard generator, carried through opaquely.
#[verifier::external_type_specification]
#[verifier::external_body]
pub struct ExStdRng(StdRng);

/// Relies on `rand::Rng::gen::<u32>` on a `StdRng`: any `u32` may come back.
#[verifier::external_body]
fn random_u32(rng: &mut StdRng) -> (r: u32) {
    rng.gen::<u32>()
}

/// Relies on `rand::seq::SliceRandom::choose`: `None` exactly for an empty
/// slice, otherwise one of its elements.
#[verifier::external_body]
fn choose_colour(rng: &mut StdRng, palette: &Vec<Colour>) -> (r: Option<Colour>)
    ensures
        r.is_none() <==> palette@.len() == 0,
        r matches Some(c) ==> palette@.contains(c),
{
    palette.choose(rng).copied()
}

/// The wallpaper styles.
#[derive(Clone, Copy, Debug, PartialEq, Eq, Structural)]
pub enum Style {
    Circle,
    Rectangle,
    Bars,
    Mandlebrot,
}

/// Why a scene could not be built.
#[derive(Clone, Copy, Debug, PartialEq, Eq, Structural)]
pub enum SceneError {
    /// The style name is none of the known ones.
    UnsupportedStyle,
    /// Shapes need colours, but the palette holds none.
    EmptyPalette,
    /// A canvas side or a maximum size that random draws are reduced by is zero.
    ZeroBound,
    /// The largest bar does not fit in a `u32` extent.
    Oversized,
}

/// What a scene is built from, besides the palette and the random source.
#[derive(Clone, Copy, Debug)]
pub struct SceneConfig {
    pub width: u32,
    pub height: u32,
    pub style: Style,
    pub shape_count: u32,
    pub bars: u32,
    pub vertical_bars: bool,
    pub max_radius: u32,
    pub max_length: u32,
    pub max_height: u32,
    pub max_iterations: u16,
}

pub open spec fn style_named(name: Seq<char>) -> Option<Style> {
    if name == "Circle"@ {
        Some(Style::Circle)
    } else if name == "Rectangle"@ {
        Some(Style::Rectangle)
    } else if name == "Bars"@ {
        Some(Style::Bars)
    } else if name == "Mandlebrot"@ {
        Some(Style::Mandlebrot)
    } else {
        None
    }
}

fn same_text(a: &str, b: &str) -> (r: bool)
    ensures
        r == (a@ == b@),
{
    let n = a.unicode_len();
    if n != b.unicode_len() {
        return false;
    }
    let mut i: usize = 0;
    while i < n
        invariant
            n == a@.len(),
            n == b@.len(),
            i <= n,
            a@.subrange(0, i as int) == b@.subrange(0, i as int),
        decreases n - i,
    {
        if a.get_char(i) != b.get_char(i) {
            return false;
        }
        proof {
            assert(a@.subrange(0, i + 1) =~= a@.subrange(0, i as int).push(a@[i as int]));
            assert(b@.subrange(0, i + 1) =~= b@.subrange(0, i as int).push(b@[i as int]));
        }
        i = i + 1;
    }
    proof {
        assert(a@.subrange(0, n as int) =~= a@);
        assert(b@.subrange(0, n as int) =~= b@);
    }
    true
}

impl Style {
    /// The style of a given name: `Circle`, `Rectangle`, `Bars` or `Mandlebrot`.
    pub fn from_name(name: &str) -> (r: Result<Style, SceneError>)
        ensures
            match style_named(name@) {
                Some(s) => r == Ok::<Style, SceneError>(s),
                None => r == Err::<Style, SceneError>(SceneError::UnsupportedStyle),
            },
    {
        proof {
            reveal_strlit("Circle");
            reveal_strlit("Rectangle");
            reveal_strlit("Bars");
            reveal_strlit("Mandlebrot");
        }
        if same_text(name, "Circle") {
            Ok(Style::Circle)
        } else if same_text(name, "Rectangle") {
            Ok(Style::Rectangle)
        } else if same_text(name, "Bars") {
            Ok(Style::Bars)
        } else if same_text(name, "Mandlebrot") {
            Ok(Style::Mandlebrot)
        } else {
            Err(SceneError::UnsupportedStyle)
        }
    }
}

/// A circle placed by three random draws: the origin reduced into the
/// canvas, the radius reduced below the maximum.
pub fn circle_from_draws(
    dx: u32,
    dy: u32,
    dr: u32,
    width: u32,
    height: u32,
    max_radius: u32,
    colour: Colour,
) -> (c: Circle)
    requires
        width > 0,
        height > 0,
        max_radius > 0,
    ensures
        c == (Circle { origin: Point(dx % width, dy % height), radius: dr % max_radius, colour }),
{
    Circle { origin: Point(dx % width, dy % height), radius: dr % max_radius, colour }
}

/// A rectangle placed by four random draws: the origin reduced into the
/// canvas, the sides reduced below their maxima.
pub fn rect_from_draws(
    dx: u32,
    dy: u32,
    dl: u32,
    dh: u32,
    width: u32,
    height: u32,
    max_length: u32,
    max_height: u32,
    colour: Colour,
) -> (r: Rect)
    requires
        width > 0,
        height > 0,
        max_length > 0,
        max_height > 0,
    ensures
        r == (Rect {
            origin: Point(dx % width, dy % height),
            length: dl % max_length,
            height: dh % max_height,
            colour,
        }),
{
    Rect { origin: Point(dx % width, dy % height), length: dl % max_length, height: dh % max_height, colour }
}

/// What every randomly placed circle of a scene satisfies.
pub open spec fn is_random_circle(s: Shape, config: SceneConfig, palette: Seq<Colour>) -> bool {
    &&& s matches Shape::Circle(c)
    &&& c.origin.0 < config.width
    &&& c.origin.1 < config.height
    &&& c.radius < config.max_radius
    &&& palette.contains(c.colour)
}

/// What every randomly placed rectangle of a scene satisfies.
pub open spec fn is_random_rect(s: Shape, config: SceneConfig, palette: Seq<Colour>) -> bool {
    &&& s matches Shape::Rect(r)
    &&& r.origin.0 < config.width
    &&& r.origin.1 < config.height
    &&& r.length < config.max_length
    &&& r.height < config.max_height
    &&& palette.contains(r.colour)
}

/// `shape_count` circles placed and coloured at random.
pub fn build_circles(rng: &mut StdRng, config: &SceneConfig, palette: &Vec<Colour>) -> (v: Vec<Shape>)
    requires
        palette@.len() > 0,
        config.width > 0,
        config.height > 0,
        config.max_radius > 0,
    ensures
        v@.len() == config.shape_count,
        forall|j: int| 0 <= j < v@.len() ==> is_random_circle(#[trigger] v@[j], *config, palette@),
{
    let mut v: Vec<Shape> = Vec::new();
    let mut n: u32 = 0;
    while n < config.shape_count
        invariant
            palette@.len() > 0,
            config.width > 0,
            config.height > 0,
            config.max_radius > 0,
            n <= config.shape_count,
            v@.len() == n,
            forall|j: int| 0 <= j < v@.len() ==> is_random_circle(#[trigger] v@[j], *config, palette@),
        decreases config.shape_count - n,
    {
        let dx = random_u32(rng);
        let dy = random_u32(rng);
        let dr = random_u32(rng);
        let colour = match choose_colour(rng, palette) {
            Some(c) => c,
            None => palette[0],
        };
        let c = circle_from_draws(dx, dy, dr, config.width, config.height, config.max_radius, colour);
        v.push(Shape::Circle(c));
        n = n + 1;
    }
    v
}

/// `shape_count` rectangles placed, sized and coloured at random.
pub fn build_rectangles(rng: &mut StdRng, config: &SceneConfig, palette: &Vec<Colour>) -> (v: Vec<Shape>)
    requires
        palette@.len() > 0,
        config.width > 0,
        config.height > 0,
        config.max_length > 0,
        config.max_height > 0,
    ensures
        v@.len() == config.shape_count,
        forall|j: int| 0 <= j < v@.len() ==> is_random_rect(#[trigger] v@[j], *config, palette@),
{
    let mut v: Vec<Shape> = Vec::new();
    let mut n: u32 = 0;
    while n < config.shape_count
        invariant
            palette@.len() > 0,
            config.width > 0,
            config.height > 0,
            config.max_length > 0,
            config.max_height > 0,
            n <= config.shape_count,
            v@.len() == n,
            forall|j: int| 0 <= j < v@.len() ==> is_random_rect(#[trigger] v@[j], *config, palette@),
        decreases config.shape_count - n,
    {
        let dx = random_u32(rng);
        let dy = random_u32(rng);
        let dl = random_u32(rng);
        let dh = random_u32(rng);
        let colour = match choose_colour(rng, palette) {
            Some(c) => c,
            None => palette[0],
        };
        let r = rect_from_draws(
            dx,
            dy,
            dl,
            dh,
            config.width,
            config.height,
            config.max_length,
            config.max_height,
            colour,
        );
        v.push(Shape::Rect(r));
        n = n + 1;
    }
    v
}

/// The canvas side along which bars grow: the width for horizontal bars,
/// the height for vertical ones.
pub open spec fn bar_dim(config: SceneConfig) -> u32 {
    if config.vertical_bars {
        config.height
    } else {
        config.width
    }
}

/// One bar step: that side divided by the number of bars, rounded up.
pub open spec fn bar_step(config: SceneConfig) -> int {
    (bar_dim(config) as int + config.bars as int - 1) / config.bars as int
}

/// Whether the largest bar's extent fits in a `u32`.
pub open spec fn bars_fit(config: SceneConfig) -> bool {
    config.bars == 0 || config.bars as int * bar_step(config) <= u32::MAX
}

/// Bar `k`: anchored at the origin, `k` steps long along the growing axis
/// and as long as the canvas along the other.
pub open spec fn bar_rect(config: SceneConfig, k: int, colour: Colour) -> Rect {
    let extent = (k * bar_step(config)) as u32;
    if config.vertical_bars {
        Rect { origin: Point(0, 0), length: config.width, height: extent, colour }
    } else {
        Rect { origin: Point(0, 0), length: extent, height: config.height, colour }
    }
}

/// Shape `j` of a bars scene: bar `bars - j`, so the largest comes first.
pub open spec fn is_bar(s: Shape, config: SceneConfig, palette: Seq<Colour>, j: int) -> bool {
    &&& s matches Shape::Rect(r)
    &&& r == bar_rect(config, config.bars - j, r.colour)
    &&& palette.contains(r.colour)
}

/// Nested bars, largest first, each coloured at random.
pub fn build_bars(rng: &mut StdRng, config: &SceneConfig, palette: &Vec<Colour>) -> (v: Vec<Shape>)
    requires
        palette@.len() > 0,
        bars_fit(*config),
    ensures
        v@.len() == config.bars,
        forall|j: int| 0 <= j < v@.len() ==> is_bar(#[trigger] v@[j], *config, palette@, j),
{
    let mut v: Vec<Shape> = Vec::new();
    if config.bars == 0 {
        return v;
    }
    let dim: u32 = if config.vertical_bars { config.height } else { config.width };
    let step: u64 = (dim as u64 + config.bars as u64 - 1) / config.bars as u64;
    let mut k: u32 = config.bars;
    while k > 0
        invariant
            palette@.len() > 0,
            config.bars > 0,
            bars_fit(*config),
            step == bar_step(*config),
            k <= config.bars,
            v@.len() == config.bars - k,
            forall|j: int| 0 <= j < v@.len() ==> is_bar(#[trigger] v@[j], *config, palette@, j),
        decreases k,
    {
        proof {
            assert(k as int * step <= config.bars as int * step) by (nonlinear_arith)
                requires k <= config.bars, step >= 0;
        }
        let extent: u32 = (k as u64 * step) as u32;
        let colour = match choose_colour(rng, palette) {
            Some(c) => c,
            None => palette[0],
        };
        let r = if config.vertical_bars {
            Rect { origin: Point(0, 0), length: config.width, height: extent, colour }
        } else {
            Rect { origin: Point(0, 0), length: extent, height: config.height, colour }
        };
        v.push(Shape::Rect(r));
        k = k - 1;
    }
    v
}

/// In a scene of nested bars, a pixel takes the colour of the smallest bar
/// that reaches it: bar `j` reaches it and the next, smaller one does not.
pub proof fn lemma_bars_show_smallest_covering_bar(
    config: SceneConfig,
    palette: Seq<Colour>,
    scene: Seq<Shape>,
    background: Colour,
    x: u32,
    y: u32,
    j: int,
)
    requires
        bars_fit(config),
        scene.len() == config.bars,
        forall|k: int| 0 <= k < scene.len() ==> is_bar(#[trigger] scene[k], config, palette, k),
        0 <= j < scene.len(),
        paint(scene[j], background, x, y).is_some(),
        j + 1 == scene.len() || paint(scene[j + 1], background, x, y).is_none(),
    ensures
        composite(scene, background, x, y) == scene[j]->Rect_0.colour,
{
    let step = bar_step(config);
    assert(step >= 0) by (nonlinear_arith)
        requires step == (bar_dim(config) as int + config.bars as int - 1) / config.bars as int,
            config.bars > 0;
    assert forall|k: int| j < k < scene.len() implies #[trigger] paint(scene[k], background, x, y).is_none()
        && (scene[k] is Rect || scene[k] is Circle) by {
        assert(is_bar(scene[k], config, palette, k));
        assert(is_bar(scene[j + 1], config, palette, j + 1));
        let bk = config.bars - k;
        let bn = config.bars - (j + 1);
        assert(bk * step <= bn * step) by (nonlinear_arith)
            requires bk <= bn, step >= 0;
        assert(bn * step <= config.bars as int * step) by (nonlinear_arith)
            requires bn <= config.bars, step >= 0;
        assert(0 <= bk * step) by (nonlinear_arith)
            requires 0 <= bk, step >= 0;
    }
    lemma_unreached_tail_keeps_pixel(scene, background, x, y, j + 1);
    let front = scene.subrange(0, j + 1);
    lemma_last_covering_shape_decides(front, background, x, y, scene[j]->Rect_0.colour);
}

/// The error a configuration and palette size lead to, if any.
pub open spec fn scene_error(config: SceneConfig, palette_len: nat) -> Option<SceneError> {
    match config.style {
        Style::Mandlebrot => None,
        Style::Circle => if palette_len == 0 {
            Some(SceneError::EmptyPalette)
        } else if config.shape_count > 0 && (config.width == 0 || config.height == 0
            || config.max_radius == 0) {
            Some(SceneError::ZeroBound)
        } else {
            None
        },
        Style::Rectangle => if palette_len == 0 {
            Some(SceneError::EmptyPalette)
        } else if config.shape_count > 0 && (config.width == 0 || config.height == 0
            || config.max_length == 0 || config.max_height == 0) {
            Some(SceneError::ZeroBound)
        } else {
            None
        },
        Style::Bars => if palette_len == 0 {
            Some(SceneError::EmptyPalette)
        } else if !bars_fit(config) {
            Some(SceneError::Oversized)
        } else {
            None
        },
    }
}

/// What a successfully built scene holds, style by style.
pub open spec fn scene_fits(
    config: SceneConfig,
    palette: Seq<Colour>,
    escapes: Vec<Option<u16>>,
    scene: Seq<Shape>,
) -> bool {
    match config.style {
        Style::Mandlebrot => scene == seq![
            Shape::Mandlebrot(
                Mandlebrot { max_iterations: config.max_iterations, width: config.width, escapes },
            ),
        ],
        Style::Circle => scene.len() == config.shape_count && forall|j: int|
            0 <= j < scene.len() ==> is_random_circle(#[trigger] scene[j], config, palette),
        Style::Rectangle => scene.len() == config.shape_count && forall|j: int|
            0 <= j < scene.len() ==> is_random_rect(#[trigger] scene[j], config, palette),
        Style::Bars => scene.len() == config.bars && forall|j: int|
            0 <= j < scene.len() ==> is_bar(#[trigger] scene[j], config, palette, j),
    }
}

/// Builds the scene of the configured style. A fractal scene is the one
/// field whose per-pixel escape steps are `escapes`.
pub fn build_scene(
    config: &SceneConfig,
    palette: &Vec<Colour>,
    escapes: Vec<Option<u16>>,
    rng: &mut StdRng,
) -> (r: Result<Vec<Shape>, SceneError>)
    ensures
        match r {
            Ok(v) => scene_error(*config, palette@.len()).is_none() && scene_fits(
                *config,
                palette@,
                escapes,
                v@,
            ),
            Err(e) => scene_error(*config, palette@.len()) == Some(e),
        },
{
    match config.style {
        Style::Mandlebrot => {
            let m = Mandlebrot { max_iterations: config.max_iterations, width: config.width, escapes };
            let mut v: Vec<Shape> = Vec::new();
            v.push(Shape::Mandlebrot(m));
            proof {
                assert(v@ =~= seq![Shape::Mandlebrot(m)]);
            }
            Ok(v)
        },
        Style::Circle => {
            if palette.len() == 0 {
                Err(SceneError::EmptyPalette)
            } else if config.shape_count == 0 {
                Ok(Vec::new())
            } else if config.width == 0 || config.height == 0 || config.max_radius == 0 {
                Err(SceneError::ZeroBound)
            } else {
                Ok(build_circles(rng, config, palette))
            }
        },
        Style::Rectangle => {
            if palette.len() == 0 {
                Err(SceneError::EmptyPalette)
            } else if config.shape_count == 0 {
                Ok(Vec::new())
            } else if config.width == 0 || config.height == 0 || config.max_length == 0
                || config.max_height == 0 {
                Err(SceneError::ZeroBound)
            } else {
                Ok(build_rectangles(rng, config, palette))
            }
        },
        Style::Bars => {
            if palette.len() == 0 {
                Err(SceneError::EmptyPalette)
            } else if config.bars == 0 {
                Ok(Vec::new())
            } else {
                let dim: u32 = if config.vertical_bars { config.height } else { config.width };
                let step: u64 = (dim as u64 + config.bars as u64 - 1) / config.bars as u64;
                proof {
                    assert(config.bars as u128 * step as u128 <= 0xffff_ffffu128 * 0xffff_ffff_ffff_ffffu128)
                        by (nonlinear_arith)
                        requires config.bars <= 0xffff_ffffu32, step <= 0xffff_ffff_ffff_ffffu64;
                }
                if config.bars as u128 * step as u128 > 0xffff_ffff {
                    Err(SceneError::Oversized)
                } else {
                    Ok(build_bars(rng, config, palette))
                }
            }
        },
    }
}

} // verus!
