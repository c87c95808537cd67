//! A personal task tracker: tasks with priority, status, tags and due dates,
//! held in an in-memory store and mirrored to a JSON document on disk.
//!
//! The store itself never touches the filesystem: it turns the collection
//! into the on-disk text and back, and the surrounding program decides where
//! that text lives.

pub mod codec;
pub mod config;
pub mod counter;
pub mod errors;
pub mod farm;
pub mod patterns;
pub mod store;
pub mod task;
pub mod text;
pub mod users;
