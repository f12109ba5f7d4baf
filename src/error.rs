use vstd::prelude::*;

use crate::entity::Entity;

verus! {

/// The ways in which a lookup can fail.
#[derive(Debug, Clone, Copy, PartialEq, Eq, Structural)]
pub enum NotFound {
    /// The entity has no registered slot set.
    Entity(Entity),
    /// The entity is registered, but the requested key neither is owned there nor resolves.
    Component(Entity),
    /// No system is registered under this id.
    EntitySystem(u32),
    /// A failure without further detail.
    Unknown,
}

impl Default for NotFound {
    fn default() -> (r: NotFound)
        ensures
            r == NotFound::Unknown,
    {
        NotFound::Unknown
    }
}

} // verus!
