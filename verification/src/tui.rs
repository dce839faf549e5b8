//! The terminal surfaces.
pub mod ansi;
pub mod fuzzy;
pub mod menu;
pub mod panel;
pub mod theme;
pub mod trustpanel;
