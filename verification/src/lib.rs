//! Verified core of a terminal status-page viewer: the Statuspage data
//! model, the 90-day uptime computation, the application state machine
//! and the pure layout decisions behind each pane.

pub mod api;
pub mod clock;
pub mod text;
pub mod bars;
pub mod sorting;
pub mod theme;
pub mod settings;
pub mod app;
pub mod ui;
