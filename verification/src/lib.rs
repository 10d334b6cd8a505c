//! A terminal player for MP3 playlists: what it decides and computes, but for what takes floating
//! point.

pub mod app;
pub mod args;
pub mod cache;
pub mod compact;
pub mod encoding;
pub mod metadata;
pub mod models;
pub mod order;
pub mod path;
pub mod player;
pub mod playlist;
pub mod records;
pub mod scanner;
pub mod terminal_image;
pub mod text;
pub mod tui;
pub mod wire;
