//! The user interface: its state, what keys and events do to it, and what is drawn.
pub mod app;
pub mod setup;
pub mod ui;
