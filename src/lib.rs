//! A typed store of component records keyed by entity id: one sparse-set
//! collection per component type, owned by a registry that issues ids.

pub mod collection;
pub mod ecss;
pub mod lemmas;

pub use crate::collection::{Collection, Component, EntityCollection, EntityId, TypeKey};
pub use crate::ecss::ECSS;
