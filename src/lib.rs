//! Quick-launch search: matching installed applications and home-directory
//! files against a typed query, resolving an icon for each result, deciding
//! what a confirmed selection launches, and driving the interaction state.
pub mod config;
pub mod controller;
pub mod dispatch;
pub mod icon;
pub mod search;
pub mod text;
