//! Resolves the member packages of a multi-package workspace, filters them by
//! visibility, normalizes their locations relative to the workspace root, and
//! renders the resolved set as a sorted, column-aligned listing.

pub mod list;
pub mod meta;
pub mod paths;
pub mod pkg;
pub mod strutil;
pub mod version;
