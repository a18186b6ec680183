//! A session as it is served to a page.

pub mod auth;
pub mod bind;
pub mod drive;
pub mod feed;
pub mod json;
pub mod keyed;
pub mod listing;
pub mod page;
pub mod percent;
pub mod says;
pub mod stamp;
pub mod told;
pub mod view;
pub mod watch;
