//! Privilege-boundary file-write helper.
//!
//! Validates that a destination path is absolute and canonical, decides which
//! permissions and ownership to apply, and plans the directory creation and
//! atomic-write steps that an unverified shell around this library carries out.

pub mod errors;
pub mod fs_model;
pub mod modes;
pub mod paths;
pub mod plan;
pub mod perms;
