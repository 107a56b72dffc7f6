//! Level geometry of binary space partition maps: loading, surface
//! triangulation and swept-probe collision queries.
//!
//! A level file is decoded into arrays of records ([`geometry`],
//! [`parse`]) and found to be sound ([`store`], [`tree`]). A sound level
//! ([`bsp`]) holds the index lists of its surfaces ([`mesh`], [`buffer`])
//! and the grids of its curved patches ([`grid`], [`patch`]), and answers
//! whether a moving point, sphere or box is stopped by its solid parts
//! ([`trace`], [`walk`]).
//!
//! The real numbers of a level are kept as the bit patterns of the file
//! ([`scalar`]). The library compares and selects them, which is exact. It
//! leaves their arithmetic to the caller: a level is loaded with a function
//! that samples curves, and a query is carried out with a kernel that
//! measures distances. Whatever these compute, the library states which
//! curves are sampled and what follows from each measure.

pub mod bsp;
pub mod bsp_look_up;
pub mod buffer;
pub mod geometry;
pub mod grid;
pub mod material;
pub mod mesh;
pub mod parse;
pub mod patch;
pub mod scalar;
pub mod store;
pub mod trace;
pub mod tree;
pub mod walk;
