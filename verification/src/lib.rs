//! Template materialization: a verified model of overlay-copying a file tree
//! onto a destination tree, the plan an executor replays to realize that copy
//! on a real filesystem, and the orchestration decisions around fetching a
//! template snapshot and validating a project name.

pub mod errors;
pub mod laws;
pub mod materialize;
pub mod names;
pub mod plan;
pub mod tree;
