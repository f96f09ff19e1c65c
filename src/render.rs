use vstd::prelude::*;
use crate::colour::Colour;
use crate::shape::{paint, painted, Shape};

verus! {

/// A `width` x `height` grid of colours, stored row by row.
pub struct Canvas {
    pub width: u32,
    pub height: u32,
    pub pixels: Vec<Colour>,
}

/// The colour of pixel `(x, y)` after every shape of `scene` was drawn, in
/// order, over a canvas of colour `background`.
pub open spec fn composite(scene: Seq<Shape>, background: Colour, x: u32, y: u32) -> Colour
    decreases scene.len(),
{
    if scene.len() == 0 {
        background
    } else {
        painted(scene.last(), composite(scene.drop_last(), background, x, y), x, y)
    }
}

impl Canvas {
    pub open spec fn wf(&self) -> bool {
        &&& self.pixels@.len() == self.width as int * self.height as int
        &&& self.width as int * self.height as int <= usize::MAX
    }

    pub open spec fn pixel(&self, x: u32, y: u32) -> Colour {
        self.pixels@[y as int * self.width as int + x as int]
    }

    /// The colour at `(x, y)`.
    pub fn get_pixel(&self, x: u32, y: u32) -> (r: Colour)
        requires
            self.wf(),
            x < self.width,
            y < self.height,
        ensures
            r == self.pixel(x, y),
    {
        proof {
            assert((y as int * self.width as int + x as int) < self.width as int * self.height as int)
                by (nonlinear_arith)
                requires x < self.width, y < self.height;
        }
        self.pixels[y as usize * self.width as usize + x as usize]
    }
}

/// Draws the scene over a canvas of colour `background`: for every pixel
/// each shape in turn, a later shape overwriting an earlier one.
pub fn render(width: u32, height: u32, background: Colour, scene: &Vec<Shape>) -> (c: Canvas)
    requires
        width as int * height as int <= usize::MAX,
    ensures
        c.width == width,
        c.height == height,
        c.wf(),
        forall|x: u32, y: u32|
            x < width && y < height ==> #[trigger] c.pixel(x, y) == composite(scene@, background, x, y),
{
    let mut pixels: Vec<Colour> = Vec::new();
    let mut y: u32 = 0;
    while y < height
        invariant
            width as int * height as int <= usize::MAX,
            y <= height,
            pixels@.len() == y as int * width as int,
            forall|i: int|
                0 <= i < pixels@.len() ==> #[trigger] pixels@[i] == composite(
                    scene@,
                    background,
                    (i % width as int) as u32,
                    (i / width as int) as u32,
                ),
        decreases height - y,
    {
        let mut x: u32 = 0;
        while x < width
            invariant
                width as int * height as int <= usize::MAX,
                y < height,
                x <= width,
                pixels@.len() == y as int * width as int + x as int,
                forall|i: int|
                    0 <= i < pixels@.len() ==> #[trigger] pixels@[i] == composite(
                        scene@,
                        background,
                        (i % width as int) as u32,
                        (i / width as int) as u32,
                    ),
            decreases width - x,
        {
            let mut px = background;
            let mut k: usize = 0;
            while k < scene.len()
                invariant
                    k <= scene@.len(),
                    px == composite(scene@.subrange(0, k as int), background, x, y),
                decreases scene@.len() - k,
            {
                proof {
                    assert(scene@.subrange(0, k + 1).drop_last() =~= scene@.subrange(0, k as int));
                }
                scene[k].draw(&mut px, x, y);
                k = k + 1;
            }
            proof {
                assert(scene@.subrange(0, scene@.len() as int) =~= scene@);
                let n = pixels@.len() as int;
                assert(n % width as int == x as int && n / width as int == y as int) by (nonlinear_arith)
                    requires n == y as int * width as int + x as int, 0 <= x < width, 0 <= y;
                assert(n + 1 <= width as int * height as int) by (nonlinear_arith)
                    requires n == y as int * width as int + x as int, x < width, y < height;
            }
            pixels.push(px);
            x = x + 1;
        }
        proof {
            assert(pixels@.len() == (y + 1) as int * width as int) by (nonlinear_arith)
                requires pixels@.len() == y as int * width as int + width as int;
        }
        y = y + 1;
    }
    assert(pixels@.len() == width as int * height as int) by (nonlinear_arith)
        requires pixels@.len() == height as int * width as int;
    let c = Canvas { width, height, pixels };
    assert forall|x: u32, y: u32| x < width && y < height implies #[trigger] c.pixel(x, y) == composite(
        scene@,
        background,
        x,
        y,
    ) by {
        let i = y as int * width as int + x as int;
        assert(i % width as int == x as int && i / width as int == y as int) by (nonlinear_arith)
            requires i == y as int * width as int + x as int, 0 <= x < width, 0 <= y;
        assert((i as int) < width as int * height as int) by (nonlinear_arith)
            requires i == y as int * width as int + x as int, x < width, y < height;
        assert(c.pixels@[i] == composite(scene@, background, (i % width as int) as u32, (i / width as int) as u32));
    }
    c
}

/// Whether a shape has one colour of its own, whatever lies beneath it.
pub open spec fn has_fixed_colour(s: Shape) -> bool {
    s is Circle || s is Rect
}

/// A fixed-colour shape drawn last decides every pixel it reaches,
/// whatever was drawn before it.
pub proof fn lemma_last_covering_shape_decides(
    scene: Seq<Shape>,
    background: Colour,
    x: u32,
    y: u32,
    c: Colour,
)
    requires
        scene.len() > 0,
        has_fixed_colour(scene.last()),
        paint(scene.last(), background, x, y) == Some(c),
    ensures
        composite(scene, background, x, y) == c,
{
}

/// Shapes at the end of a scene that reach no pixel `(x, y)` leave it as
/// the earlier shapes made it.
pub proof fn lemma_unreached_tail_keeps_pixel(scene: Seq<Shape>, background: Colour, x: u32, y: u32, m: int)
    requires
        0 <= m <= scene.len(),
        forall|k: int|
            m <= k < scene.len() ==> has_fixed_colour(#[trigger] scene[k]) && paint(
                scene[k],
                background,
                x,
                y,
            ).is_none(),
    ensures
        composite(scene, background, x, y) == composite(scene.subrange(0, m), background, x, y),
    decreases scene.len(),
{
    if scene.len() > m {
        let rest = scene.drop_last();
        assert(forall|k: int| m <= k < rest.len() ==> rest[k] == scene[k]);
        lemma_unreached_tail_keeps_pixel(rest, background, x, y, m);
        assert(rest.subrange(0, m) =~= scene.subrange(0, m));
    } else {
        assert(scene.subrange(0, m) =~= scene);
    }
}

/// Where two fixed-colour shapes both reach a pixel, the pixel takes the
/// colour of whichever was added to the scene later, in either order.
pub proof fn lemma_overlap_last_wins(
    scene: Seq<Shape>,
    background: Colour,
    a: Shape,
    b: Shape,
    x: u32,
    y: u32,
    ca: Colour,
    cb: Colour,
)
    requires
        has_fixed_colour(a),
        has_fixed_colour(b),
        paint(a, background, x, y) == Some(ca),
        paint(b, background, x, y) == Some(cb),
    ensures
        composite(scene.push(a).push(b), background, x, y) == cb,
        composite(scene.push(b).push(a), background, x, y) == ca,
{
    lemma_last_covering_shape_decides(scene.push(a).push(b), background, x, y, cb);
    lemma_last_covering_shape_decides(scene.push(b).push(a), background, x, y, ca);
}

} // verus!
