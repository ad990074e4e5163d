//! Where newly constructed entities go.
use crate::Entity;
use vstd::prelude::*;

verus! {

/// The destination for constructing new entities
#[derive(Debug, Clone, Copy, PartialEq, Eq, Structural)]
pub enum Dest {
    /// A new new entity at the root
    Root,
    /// Replace an existing entity
    Replace(Entity),
    /// Replace an existing entity's children
    ReplaceChildren(Entity),
    /// Add to an existing entity's children
    Append(Entity),
}

impl From<Entity> for Dest {
    /// An entity as a destination replaces that entity.
    fn from(id: Entity) -> (d: Dest) {
        Dest::Replace(id)
    }
}

impl vstd::std_specs::convert::FromSpecImpl<Entity> for Dest {
    open spec fn obeys_from_spec() -> bool {
        true
    }

    open spec fn from_spec(id: Entity) -> Dest {
        Dest::Replace(id)
    }
}

} // verus!
