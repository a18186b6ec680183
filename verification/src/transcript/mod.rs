//! The transcript model, the events that change it, and how an entry becomes
//! rendered rows.

pub mod activity;
pub mod cache;
pub mod details;
pub mod events;
pub mod fresh;
pub mod hover;
pub mod lines;
pub mod live;
pub mod model;
pub mod pages;
pub mod render;
pub mod rows;
pub mod share;
pub mod shows;
pub mod tool_line;
pub mod unfolds;
