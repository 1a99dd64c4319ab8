//! Giving a session store the new path of a project that has moved.
//!
//! A store keys its sessions by the path of the project: in the name of a
//! directory, in a field of its files, in a column of a table. Each change is
//! planned before it is made, and each plan has an inverse.
pub mod all;
pub mod apply;
pub mod laws;
pub mod plan;
pub mod roles;
pub mod tokens;
pub mod types;

pub use all::{rekey_all, RekeyReport};
pub use apply::apply;
pub use plan::plan;
pub use types::{RecordedUndo, RekeyAction, RekeyError, RekeyFailure, RekeyPlan};
