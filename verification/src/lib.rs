//! Radius-annotated skeleton maps of rasterized glyphs.
//!
//! A glyph is a square grid of cells in row-major order. The library trims
//! the grid's boundary rows, and annotates every occupied cell with the
//! largest diamond radius around it that stays inside the stroke.

pub mod bloat;
pub mod bloat_laws;
pub mod decorner;
pub mod diamond;
pub mod matrix;
pub mod text;
pub mod walk;

pub use bloat::{
    annotate, clean_at, grow_bloats, grow_once, prune_bloats, prune_once, trace_at, write_bloats,
    GlobalCurveData,
};
pub use decorner::{
    decorner_once, get_accumulation, process_corners, set_bound_rows_to_zero, trim,
    MAXIMUM_REDUCTIONS_DECORNERING,
};
pub use matrix::{Number, Vmatrix};
pub use text::{text_to_int_vector, text_to_vmatrix};
pub use walk::{direction_at, step, step_within, Direction};
