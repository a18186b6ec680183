//! The pure core of a terminal front end for coding sessions: text layout,
//! themes, the transcript and its rendering, session restoration, and the
//! rules of the session server.

pub mod buffer;
pub mod chars;
pub mod columns;
pub mod format;
pub mod measure;
pub mod numbers;
pub mod paint;
pub mod secret_cli;
pub mod selection;
pub mod serve;
pub mod session;
pub mod sidebar;
pub mod style;
pub mod text;
pub mod theme;
pub mod todos;
pub mod transcript;
pub mod words;
