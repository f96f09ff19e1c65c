use vstd::prelude::*;
use crate::colour::Colour;

verus! {

/// A pixel position.
#[derive(Clone, Copy, Debug, PartialEq, Eq, Structural)]
pub struct Point(pub u32, pub u32);

/// A filled disc of fixed colour.
#[derive(Clone, Copy, Debug, PartialEq, Eq, Structural)]
pub struct Circle {
    pub origin: Point,
    pub radius: u32,
    pub colour: Colour,
}

/// A filled rectangle of fixed colour, bounds included on every side.
#[derive(Clone, Copy, Debug, PartialEq, Eq, Structural)]
pub struct Rect {
    pub origin: Point,
    pub length: u32,
    pub height: u32,
    pub colour: Colour,
}

/// A fractal field over a `width` x `height` canvas. For each pixel, in
/// row-major order, `escapes` holds the first step at which the orbit of
/// that pixel left the disc of radius 2, or `None` if it stayed inside
/// for all `max_iterations` steps.
#[derive(Debug)]
pub struct Mandlebrot {
    pub max_iterations: u16,
    pub width: u32,
    pub escapes: Vec<Option<u16>>,
}

/// One element of a scene.
#[derive(Debug)]
pub enum Shape {
    Circle(Circle),
    Rect(Rect),
    Mandlebrot(Mandlebrot),
}

/// Squared distance below squared radius.
pub open spec fn in_circle(c: Circle, x: u32, y: u32) -> bool {
    let dx = x as int - c.origin.0 as int;
    let dy = y as int - c.origin.1 as int;
    dx * dx + dy * dy < c.radius as int * c.radius as int
}

/// Inside the closed rectangle.
pub open spec fn in_rect(r: Rect, x: u32, y: u32) -> bool {
    r.origin.0 <= x && x <= r.origin.0 + r.length && r.origin.1 <= y && y <= r.origin.1
        + r.height
}

/// One channel moved towards white by `factor` hundredths, damped by 15.
pub open spec fn brighten_channel(v: u8, factor: u8) -> u8 {
    (v as int + (factor as int * (255 - v as int)) / 1500) as u8
}

pub open spec fn brightened(c: Colour, factor: u8) -> Colour {
    Colour {
        r: brighten_channel(c.r, factor),
        g: brighten_channel(c.g, factor),
        b: brighten_channel(c.b, factor),
    }
}

/// The index of the last step taken before the orbit escaped: zero when it
/// escaped at once, one less than the limit when it never escaped.
pub open spec fn stop_index(max_iterations: u16, escape: Option<u16>) -> u16 {
    match escape {
        Some(t) => if t == 0 { 0 } else { (t - 1) as u16 },
        None => if max_iterations == 0 { 0 } else { (max_iterations - 1) as u16 },
    }
}

/// The brightness factor of a stop index: its low eight bits.
pub open spec fn factor_of(i: u16) -> u8 {
    (i as int % 256) as u8
}

pub open spec fn field_index(m: Mandlebrot, x: u32, y: u32) -> int {
    y as int * m.width as int + x as int
}

pub open spec fn in_field(m: Mandlebrot, x: u32, y: u32) -> bool {
    x < m.width && field_index(m, x, y) < m.escapes@.len()
}

/// The colour a shape gives pixel `(x, y)` whose colour so far is `px`,
/// or `None` where the shape does not reach.
pub open spec fn paint(s: Shape, px: Colour, x: u32, y: u32) -> Option<Colour> {
    match s {
        Shape::Circle(c) => if in_circle(c, x, y) { Some(c.colour) } else { None },
        Shape::Rect(r) => if in_rect(r, x, y) { Some(r.colour) } else { None },
        Shape::Mandlebrot(m) => if in_field(m, x, y) {
            Some(brightened(px, factor_of(stop_index(m.max_iterations, m.escapes@[field_index(m, x, y)]))))
        } else {
            None
        },
    }
}

/// The colour of a pixel after a shape was drawn over it.
pub open spec fn painted(s: Shape, px: Colour, x: u32, y: u32) -> Colour {
    match paint(s, px, x, y) {
        Some(c) => c,
        None => px,
    }
}

fn brighten_u8(v: u8, factor: u8) -> (r: u8)
    ensures
        r == brighten_channel(v, factor),
        r as int == v as int + (factor as int * (255 - v as int)) / 1500,
{
    let gap: u32 = 255 - v as u32;
    proof {
        assert(factor as u32 * gap <= 255 * 255) by (nonlinear_arith)
            requires factor <= 255, gap <= 255;
        assert((factor as int * gap as int) / 1500 <= gap) by (nonlinear_arith)
            requires factor <= 255, 0 <= gap;
    }
    let step: u32 = (factor as u32 * gap) / 1500;
    (v as u32 + step) as u8
}

/// Moves each channel of `px` towards white by `factor` hundredths of the
/// way, damped by a fixed divisor of 15.
pub fn brighten(px: &Colour, factor: u8) -> (r: Colour)
    ensures
        r == brightened(*px, factor),
{
    Colour { r: brighten_u8(px.r, factor), g: brighten_u8(px.g, factor), b: brighten_u8(px.b, factor) }
}

/// The index of the last step taken before an orbit escaped.
pub fn iteration_index(max_iterations: u16, escape: Option<u16>) -> (r: u16)
    ensures
        r == stop_index(max_iterations, escape),
{
    match escape {
        Some(t) => if t == 0 { 0 } else { t - 1 },
        None => if max_iterations == 0 { 0 } else { max_iterations - 1 },
    }
}

impl Circle {
    pub fn draw(&self, px: &mut Colour, x: u32, y: u32) -> (hit: bool)
        ensures
            hit == in_circle(*self, x, y),
            *final(px) == if hit { self.colour } else { *old(px) },
    {
        let dx: u64 = if x >= self.origin.0 { (x - self.origin.0) as u64 } else { (self.origin.0 - x) as u64 };
        let dy: u64 = if y >= self.origin.1 { (y - self.origin.1) as u64 } else { (self.origin.1 - y) as u64 };
        let rr: u64 = self.radius as u64;
        proof {
            assert(dx * dx <= 0xffff_ffff_ffff_ffffu128) by (nonlinear_arith)
                requires dx <= 0xffff_ffffu64;
            assert(dy * dy <= 0xffff_ffff_ffff_ffffu128) by (nonlinear_arith)
                requires dy <= 0xffff_ffffu64;
            assert(rr * rr <= 0xffff_ffff_ffff_ffffu128) by (nonlinear_arith)
                requires rr <= 0xffff_ffffu64;
            let ex = x as int - self.origin.0 as int;
            let ey = y as int - self.origin.1 as int;
            assert(dx * dx == ex * ex) by (nonlinear_arith)
                requires dx == ex || dx == -ex;
            assert(dy * dy == ey * ey) by (nonlinear_arith)
                requires dy == ey || dy == -ey;
        }
        let dist: u128 = dx as u128 * dx as u128 + dy as u128 * dy as u128;
        if dist < rr as u128 * rr as u128 {
            *px = self.colour;
            true
        } else {
            false
        }
    }
}

impl Rect {
    pub fn draw(&self, px: &mut Colour, x: u32, y: u32) -> (hit: bool)
        ensures
            hit == in_rect(*self, x, y),
            *final(px) == if hit { self.colour } else { *old(px) },
    {
        let x_end: u64 = self.origin.0 as u64 + self.length as u64;
        let y_end: u64 = self.origin.1 as u64 + self.height as u64;
        if x >= self.origin.0 && x as u64 <= x_end && y >= self.origin.1 && y as u64 <= y_end {
            *px = self.colour;
            true
        } else {
            false
        }
    }
}

impl Mandlebrot {
    /// Brightens the pixel by the escape step recorded for it.
    pub fn draw(&self, px: &mut Colour, x: u32, y: u32) -> (hit: bool)
        ensures
            hit == in_field(*self, x, y),
            *final(px) == painted(Shape::Mandlebrot(*self), *old(px), x, y),
    {
        if x >= self.width {
            return false;
        }
        proof {
            assert(y as int * self.width as int <= 0xffff_ffff * 0xffff_ffff) by (nonlinear_arith)
                requires y <= 0xffff_ffffu32, self.width <= 0xffff_ffffu32;
        }
        let idx: u128 = y as u128 * self.width as u128 + x as u128;
        if idx >= self.escapes.len() as u128 {
            return false;
        }
        let i = iteration_index(self.max_iterations, self.escapes[idx as usize]);
        *px = brighten(px, (i % 256) as u8);
        true
    }
}

impl Shape {
    /// Draws this shape over the pixel `(x, y)`; tells whether it reached it.
    pub fn draw(&self, px: &mut Colour, x: u32, y: u32) -> (hit: bool)
        ensures
            hit == paint(*self, *old(px), x, y).is_some(),
            *final(px) == painted(*self, *old(px), x, y),
    {
        match self {
            Shape::Circle(c) => c.draw(px, x, y),
            Shape::Rect(r) => r.draw(px, x, y),
            Shape::Mandlebrot(m) => m.draw(px, x, y),
        }
    }
}

/// A pixel whose orbit escapes before the first step stops at index zero
/// and is brightened by a factor of zero, which leaves its colour as it was.
pub proof fn lemma_immediate_escape_keeps_colour(m: Mandlebrot, px: Colour, x: u32, y: u32)
    requires
        in_field(m, x, y),
        m.escapes@[field_index(m, x, y)] == Some(0u16),
    ensures
        stop_index(m.max_iterations, m.escapes@[field_index(m, x, y)]) == 0,
        paint(Shape::Mandlebrot(m), px, x, y) == Some(px),
{
    assert(factor_of(0) == 0);
    assert(brighten_channel(px.r, 0) == px.r);
    assert(brighten_channel(px.g, 0) == px.g);
    assert(brighten_channel(px.b, 0) == px.b);
    assert(brightened(px, 0) == px);
}

} // verus!
