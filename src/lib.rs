//! A tile-grid world made of square zones joined by portals, with a
//! shadow-casting field-of-view engine that sees through those portals.
use vstd::prelude::*;

pub mod agent;
pub mod fov;
pub mod ids;
pub mod portal;
pub mod sprite;
pub mod ux;
pub mod world;
pub mod zone;

verus! {

} // verus!
