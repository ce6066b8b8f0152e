use vstd::prelude::*;

verus! {

/// Opaque, recyclable identifier of one logical game object.
#[derive(Debug, Clone, Copy, PartialEq, Eq, Hash, Structural)]
pub struct Entity(pub u32);

impl Entity {
    /// The raw numeric identifier.
    pub fn id(&self) -> (id: u32)
        ensures
            id == self.0,
    {
        self.0
    }
}

/// Identifier of a component type: the key under which a world registers the
/// storage of that type.
#[derive(Debug, Clone, Copy, PartialEq, Eq, Hash, Structural)]
pub struct ComponentType(pub u32);

} // verus!
