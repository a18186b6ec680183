//! Sessions: their logs, and the transcript that a log is replayed into.

pub mod answers;
pub mod children;
pub mod event;
pub mod ghost;
pub mod notice;
pub mod restore;
