//! Deterministic composition solver: placement scoring, conflict and
//! cycle detection, capability filtering, resource ranking, scaling and
//! promotion evaluation. All arithmetic is fixed-point ppm.

pub mod error;
pub mod filter;
pub mod cycle;
pub mod conflict;
pub mod membership;
pub mod placement;
pub mod promotion;
pub mod resource;
pub mod scaling;
pub mod scorer;
pub mod solve;
