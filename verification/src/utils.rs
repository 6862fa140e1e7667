//! General-purpose helpers: string shaping (repetition, centering,
//! truncation) and order statistics over integer samples.

pub mod maths;
pub mod string;
