pub mod builder;
pub mod store;
