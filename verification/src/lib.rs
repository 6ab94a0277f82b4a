//! Marrow: a Markdown and notebook renderer that annotates its HTML output
//! with source line ranges, extracts tables of contents, translates ANSI
//! colour codes, and paginates oversized cell outputs.

pub mod ansi;
pub mod events;
pub mod image;
pub mod linemap;
pub mod notebook;
pub mod render;
pub mod slug;
pub mod text;
pub mod toc;
pub mod truncate;
pub mod unicode;
