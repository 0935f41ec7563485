//! Terminal front end for a wireless network manager: record parsing of the
//! control utility's terse output, error classification, and the single-threaded
//! application state machine that coordinates background operations.
pub mod app;
pub mod display;
pub mod event;
pub mod nmcli;
pub mod terse;
pub mod text;
