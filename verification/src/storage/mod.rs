//! Torrents and settings as the database keeps them.
pub mod db;
pub mod models;
