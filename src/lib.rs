//! Procedural wallpaper rendering: colour decoding, shapes, scene
//! construction and per-pixel compositing.

mod colour;
mod shape;
mod render;
mod scene;

pub use colour::{colour_parse, parse_palette, hex_char_to_n, parse_hex, Colour, ColourError};
pub use shape::{brighten, iteration_index, Circle, Mandlebrot, Point, Rect, Shape};
pub use render::{render, Canvas};
pub use scene::{
    build_bars, build_circles, build_rectangles, build_scene, circle_from_draws, rect_from_draws,
    SceneConfig, SceneError, Style,
};
