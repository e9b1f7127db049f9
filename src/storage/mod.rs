//! Storage-side data and layout.
pub mod items;
pub mod keys;
pub mod mem;
pub mod models;
pub mod redis;
pub mod spike;
pub mod users;
