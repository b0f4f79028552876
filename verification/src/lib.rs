//! Core logic of a single-root file-sharing service: traversal-safe path
//! resolution confined to one root directory, ordered directory listings,
//! and a streaming upload pipeline with commit/rollback decisions.

pub mod controller;
pub mod errors;
pub mod ext;
pub mod listing;
pub mod paths;
pub mod upload;

pub use errors::AppError;
