//! Geometric figure generation: a content-addressed arithmetic DAG, its
//! derivative programs, and the lowering of geometric constraints into it.

pub mod best;
pub mod check;
pub mod compile;
pub mod expr;
pub mod geometry;
pub mod gradient;
pub mod ir;
pub mod lower;
pub mod parser;
pub mod rules;
pub mod unroll;
pub mod term;
pub mod value;
