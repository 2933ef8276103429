use vstd::prelude::*;

verus! {

/// A runtime identity: an entity handle, or the identity of a type, event or
/// relationship (a type's identity is itself an entity).
pub type Entity = u64;

/// The null handle: no entity.
pub const NULL_ENTITY: u64 = 0;

/// Matches any target, binding each match separately.
pub const WILDCARD: u64 = 1;

/// Matches any target, yielding at most one match.
pub const ANY: u64 = 2;

/// Most terms that one query descriptor may hold.
pub const MAX_TERMS: usize = 32;

/// Most trigger events that one observer descriptor may hold.
pub const MAX_EVENTS: usize = 8;

/// True when `e` names a concrete entity rather than a placeholder.
pub open spec fn is_concrete(e: u64) -> bool {
    e != NULL_ENTITY && e != WILDCARD && e != ANY
}

/// Tells whether `e` names a concrete entity.
pub fn concrete(e: Entity) -> (r: bool)
    ensures
        r == is_concrete(e),
{
    e != NULL_ENTITY && e != WILDCARD && e != ANY
}

} // verus!
