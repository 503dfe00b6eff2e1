//! A terminal reader for Hacker News stories: the request addresses, the
//! records, comment cleanup and flattening, the reader state with its key
//! handling, and the text of each screen.
pub mod text;
pub mod models;
pub mod ui;
pub mod api;
pub mod render;
