//! A generational handle table: small, stable integer handles for the nodes
//! of a tree that is rebuilt from scratch again and again.

pub mod digest;
pub mod handle;
pub mod handles;
pub mod laws;
pub mod model;
pub mod path_map;
pub mod vpath;
