//! Detects letterforms that are drawn alike: a budgeted, tolerant comparison of
//! outlines, the pruned nearest-point query it rests on, and the grouping of
//! the letterforms that several sources give for one character.
//!
//! Every length is a whole number of ticks, a subdivision of the design unit
//! that the caller fixes once; squared lengths and budgets are in square ticks.

pub mod about_the_same;
pub mod args;
pub mod file_names;
pub mod geometry;
pub mod glyph_path;
pub mod grouping;
pub mod nearest;
pub mod rules;
pub mod sharing;
