//! taba: verified core of a deterministic composition solver, its
//! security primitives, and its observability layer.

pub mod common;
pub mod solver;
pub mod harness;
pub mod keyed;
pub mod model;
pub mod order;
pub mod text;
pub mod security;
pub mod observe;
