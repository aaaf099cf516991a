//! What the HTTP API answers.

pub mod handlers;
pub mod models;
