//! A small library around tagged animal records: a wire-level record (a tag
//! plus a weight and a color) is resolved into one of a closed set of animal
//! kinds, the resulting collection can be sorted by color or by weight and
//! reversed, and each animal can be rendered back into a record with the same
//! tag, weight and color.

pub mod model;
pub mod order;
pub mod pipeline;
