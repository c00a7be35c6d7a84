//! Keeps a physics engine's joint objects in step with an engine-independent
//! description of joints held by an entity store.
//!
//! The library owns the back-references from joint entities to engine joint
//! handles, and decides, tick by tick, which engine joints are torn down,
//! which joint records are dropped and which joints are built.
use vstd::prelude::*;

pub mod handles;
pub mod table;
pub mod passes;
pub mod laws;

pub use handles::{BodyHandle, JointHandle};
pub use table::{Completion, JointSync};
pub use passes::{Creation, PendingRecord};
