//! A parser for line-oriented OBJ geometry text.
//!
//! A document is read one line at a time. A `v` statement declares a vertex,
//! an `l` statement adds the two indices of a line segment, and an `f`
//! statement adds the triangles of a polygon, cut into a fan around its first
//! corner. Every other line is skipped. The result is a [`Mesh`]: the
//! vertices in the order of their declaration, and one flat list of indices
//! into them, counted from zero. A document with a statement that cannot be
//! read is refused as a whole, with a [`ParseError`] that names the line.
//!
//! Every executable function is proved to compute what a specification
//! function says, on sequences of characters: [`parse_document`] for
//! [`obj_lines_to_mesh`] and [`parse_obj`], and so on down to the tokens of a
//! line. The modules:
//!
//! - [`text`]: lines, tokens and fields;
//! - [`number`]: the integers and floating-point literals that tokens spell;
//! - [`mesh`]: vertices and meshes;
//! - [`fan`]: the triangles of a polygon;
//! - [`statement`]: what one line does to a mesh;
//! - [`parser`]: what a document does;
//! - [`laws`]: what holds of every statement;
//! - [`error`]: errors and notes.
//!
//! Coordinates are kept as the literals that the document gives for them, in
//! a [`Numeral`]; a caller that wants floating-point values reads them with
//! `str::parse`, which accepts every literal that a `Numeral` can hold.

pub mod error;
pub mod fan;
pub mod laws;
pub mod mesh;
pub mod number;
pub mod parser;
pub mod statement;
pub mod text;

pub use error::{FaceTooLarge, ParseError};
pub use mesh::{Mesh, Numeral, Vertex};
pub use parser::{obj_lines_to_mesh, parse_document, parse_obj, Parsed, DEFAULT_FACE_CAP};
