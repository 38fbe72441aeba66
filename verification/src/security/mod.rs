pub mod attestation;
pub mod ceremony;
pub mod crypto;
pub mod delegation;
pub mod enforcement;
pub mod enrollment;
pub mod error;
pub mod gf256;
pub mod interpolation;
pub mod provenance;
pub mod scope;
pub mod shamir;
pub mod signing;
pub mod taint;
pub mod verification;
