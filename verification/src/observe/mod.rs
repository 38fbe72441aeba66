pub mod alert;
pub mod error;
pub mod events;
pub mod health;
pub mod prometheus;
pub mod replay;
pub mod trail;
