//! Installing, launching, supervising and removing extension executables.
pub mod auth;
pub mod lifecycle;
pub mod naming;
pub mod ordering;
pub mod registry;
pub mod store;
pub mod ui;
