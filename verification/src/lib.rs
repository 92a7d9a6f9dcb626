//! A verified formatting core for a colorized, column-aligned directory
//! listing: size/unit selection, permission and date rendering, name
//! truncation, tiered sorting and ANSI-escaped row assembly.
pub mod config;
pub mod entry;
pub mod listing;
pub mod platform;
pub mod render;
pub mod sort;
pub mod text;
