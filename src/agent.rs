//! Agents: named actors that stand in a zone and are drawn by their animations.
use vstd::prelude::*;

use crate::sprite::SpriteTile;

verus! {

pub struct Agent {
    pub id: usize,
    pub name: String,
    pub animations: Vec<SpriteTile>,
    pub zone_id: usize,
}

impl Agent {
    pub fn new(id: usize, name: String, animation: Vec<SpriteTile>, zone_id: usize) -> (r: Agent)
        ensures
            r.id == id,
            r.name@ == name@,
            r.animations@ == animation@,
            r.zone_id == zone_id,
    {
        Agent { id, name, animations: animation, zone_id }
    }

    /// An agent with id and zone 0, no name, and a single stub animation frame.
    pub fn stub() -> (r: Agent)
        ensures
            r.id == 0,
            r.name@ == Seq::<char>::empty(),
            r.animations@.len() == 1,
            r.animations@[0].sheet@ == Seq::<char>::empty(),
            r.animations@[0].coords == (0usize, 0usize),
            r.animations@[0].size == (0usize, 0usize),
            r.zone_id == 0,
    {
        let mut frames: Vec<SpriteTile> = Vec::new();
        frames.push(SpriteTile::stub());
        Agent::new(0, String::new(), frames, 0)
    }
}

} // verus!
