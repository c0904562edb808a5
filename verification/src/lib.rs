//! Core logic of a terminal viewer for listening TCP ports.
pub mod app;
pub mod order;
pub mod port_info;
pub mod system;
pub mod text;
pub mod ui;
