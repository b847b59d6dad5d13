//! A workspace store: independently named, file-backed workspaces ("trees")
//! kept as one file each inside a single trees directory. The store offers
//! three operations - create, list, delete - over a model of that directory,
//! with the directory listing itself serving as the index of workspaces.

pub mod naming;
pub mod model;
pub mod store;
pub mod laws;
