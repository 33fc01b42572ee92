//! Entity identity allocation: handles made of an id and a generation, a slot
//! table that records each id's current generation and storage location, and a
//! ledger of recycled ids that lets ids be reserved ahead of time and
//! materialized later by `Entities::flush`.

pub mod entities;
pub mod entity;
pub mod lemmas;

pub use entities::{Entities, EntityMeta, ReserveEntitiesIterator};
pub use entity::{Entity, Location, NoSuchEntity};
