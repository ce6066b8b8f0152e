//! Entity-component store: entity allocation with recycling, one storage per
//! component type, and queries over a storage.

pub mod assoc;
pub mod components;
pub mod entity;
pub mod laws;
pub mod query;
pub mod storage;
pub mod world;

pub use self::components::Name;
pub use self::entity::{ComponentType, Entity};
pub use self::query::{QueryIter, QueryIterMut};
pub use self::storage::Storage;
pub use self::world::{World, WorldState};
