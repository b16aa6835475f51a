//! Core of an interactive directory browser: a verified navigation state
//! machine over a current path, a sorted directory listing, and a selection
//! cursor. Terminal rendering, key capture and filesystem reads live
//! outside this crate; they hand plain values in and take plain values
//! back.

pub mod entries;
pub mod keys;
pub mod listing;
pub mod nav;
pub mod paths;
