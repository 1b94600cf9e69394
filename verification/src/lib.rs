//! Verified core logic of a project panel's undo history and of a release
//! compliance checker.
pub mod compliance;
pub mod text;
pub mod thread_picker;
pub mod undo;
