//! A tiny language for describing flags and the engine that paints them.
//!
//! A flag is written as a parenthesised expression such as
//! `(h 1 (s b) 1 (s w) 1 (s r))`. The text is parsed into a symbolic tree,
//! the tree is read as a geometry with named parts, the names are resolved,
//! and the resolved geometry is painted onto a canvas by splitting its
//! rectangle among weighted children.

pub mod builder;
pub mod canvas;
pub mod color;
pub mod geometry;
pub mod parser;
pub mod render;
pub mod resolver;
pub mod sexpr;
pub mod source;
pub mod tags;
pub mod writer;

pub use canvas::{MsPaint, RgbCanvas};
pub use color::Color;
pub use geometry::{FlagElement, FlagGeometry, UnresolvedFlagElement, UnresolvedFlagGeometry};
pub use render::DrawError;
pub use sexpr::SExpr;
pub use source::CharSource;
pub use tags::TagTable;
