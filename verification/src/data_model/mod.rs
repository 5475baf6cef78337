//! The data model: a node of endpoints, each of clusters, each of
//! attributes and commands.

pub mod dispatch;
pub mod node;
pub mod objects;
pub mod sdm;
