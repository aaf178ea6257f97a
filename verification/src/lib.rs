//! Reach the services of a Kubernetes cluster from the local machine by short names such as
//! `nginx.default`.
//!
//! The library holds the decisions: how cluster objects become table rows and name entries, how
//! a DNS packet is read and answered, which commands and file contents set the machine up, how the
//! terminal interface reacts to keys and background events, and what each screen shows. It performs
//! no input or output; the one outside computation that it asks for is how ratatui divides a screen.
pub mod control;
pub mod kube;
pub mod network;
pub mod text;
pub mod tui;
