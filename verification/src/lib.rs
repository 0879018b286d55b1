//! Synapse: a local-first note-taking knowledge base.
//!
//! Notes are made of ordered content blocks, organized into folders and tags,
//! cross-linked, and full-text searchable. The relational rows live in an
//! in-memory model whose invariants are verified; every write is mirrored to a
//! SQLite database for persistence and full-text search.

pub mod clock;
pub mod dao;
pub mod db;
pub mod db_manager;
pub mod editor;
pub mod error;
pub mod ids;
pub mod laws;
pub mod models;
pub mod parser;
pub mod relation_dao;
pub mod renderer;
pub mod schema;
pub mod services;
pub mod sorting;
pub mod text;
