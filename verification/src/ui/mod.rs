//! Pure layout and content decisions of the terminal panes; drawing
//! them is left to the caller.

pub mod banner;
pub mod drawer;
pub mod footer;
pub mod header;
pub mod layout;
pub mod modal;
pub mod scroll;
pub mod sections;
pub mod services;
pub mod skeleton;
pub mod timeline;
pub mod uptime_bars;
