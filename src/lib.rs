//! A login banner's todo-list engine: a line-oriented storage format, edit
//! commands over an ordered list, an interactive menu driven one line at a
//! time, and small parsers for the host figures that the banner shows.

pub mod text;
pub mod error;
pub mod list;
pub mod codec;
pub mod number;
pub mod command;
pub mod menu;
pub mod telemetry;
pub mod weather;
pub mod render;
