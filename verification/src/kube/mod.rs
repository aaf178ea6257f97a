//! Kubernetes objects as the rest of the library uses them.
pub mod context;
pub mod services;
