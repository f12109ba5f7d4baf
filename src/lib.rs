//! An entity/component store with shared components, and a system registry that runs
//! systems in priority order.

use vstd::prelude::*;

pub mod builder;
pub mod component;
pub mod entity;
pub mod error;
pub mod key;
pub mod manager;
pub mod system;
pub mod table;
pub mod world;

pub use crate::builder::{
    BuildComponents, ComponentBox, ComponentBuilder, SharedComponentBox, StringComponentBuilder,
    TypeComponentBuilder,
};
pub use crate::component::{ComponentStore, Slot, StringComponentStore, TypeComponentStore};
pub use crate::entity::{Entity, EntityStore, VecEntityStore};
pub use crate::error::NotFound;
pub use crate::key::{SlotKey, TableKey, TypeKey};
pub use crate::manager::{EntityBuilder, EntityComponentManager, TypeEntityBuilder};
pub use crate::system::{EntitySystem, Priority, System, SystemStore};
pub use crate::table::Table;
pub use crate::world::{Invocation, SystemStoreBuilder, World};

verus! {

} // verus!
