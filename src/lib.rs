//! Descriptor construction for an entity-component runtime: a per-world
//! registry from type keys to runtime identities, a term model, query and
//! observer builders that validate their descriptors when they are built,
//! and prefab hierarchies whose slots resolve per instance.

pub mod ids;
pub mod term;
pub mod world;
pub mod query;
pub mod observer;
