//! Verified core of a side-panel clipboard history and prompt library.

pub mod clock;
pub mod history;
pub mod ids;
pub mod laws;
pub mod library;
pub mod models;
pub mod panel;
pub mod table;
pub mod text;
