//! The world: zones and portals keyed by identifier, and single-step traversal.
use std::collections::HashMap;

use vstd::prelude::*;

use crate::ids::random_id;
use crate::portal::{exits_match, Portal};
use crate::zone::{in_bounds, lemma_idx_in_square, lemma_side_small, spec_idx, Tile, Zone, ZoneTraversalResult};

verus! {

broadcast use vstd::std_specs::hash::group_hash_axioms;

#[derive(Clone, Copy, Debug, PartialEq, Eq, Structural, Hash)]
pub enum TraversalDirection {
    North,
    East,
    South,
    West,
    NoDirection,
}

impl TraversalDirection {
    pub open spec fn spec_opposite(self) -> TraversalDirection {
        match self {
            TraversalDirection::North => TraversalDirection::South,
            TraversalDirection::South => TraversalDirection::North,
            TraversalDirection::West => TraversalDirection::East,
            TraversalDirection::East => TraversalDirection::West,
            TraversalDirection::NoDirection => TraversalDirection::NoDirection,
        }
    }

    pub open spec fn is_cardinal(self) -> bool {
        self != TraversalDirection::NoDirection
    }

    /// The unit step of a direction; y grows southwards.
    pub open spec fn delta(self) -> (int, int) {
        match self {
            TraversalDirection::North => (0, -1),
            TraversalDirection::South => (0, 1),
            TraversalDirection::West => (-1, 0),
            TraversalDirection::East => (1, 0),
            TraversalDirection::NoDirection => (0, 0),
        }
    }

    pub fn opposite(&self) -> (r: TraversalDirection)
        ensures
            r == self.spec_opposite(),
    {
        match self {
            TraversalDirection::North => TraversalDirection::South,
            TraversalDirection::South => TraversalDirection::North,
            TraversalDirection::West => TraversalDirection::East,
            TraversalDirection::East => TraversalDirection::West,
            TraversalDirection::NoDirection => TraversalDirection::NoDirection,
        }
    }
}

/// A payload that can make a blank value for freshly created tiles.
pub trait Payloadable: Sized {
    /// The blank payload.
    spec fn spec_stub() -> Self;

    fn stub() -> (r: Self)
        ensures
            r == Self::spec_stub(),
    ;
}

/// A tile named by its zone and its local coordinates.
#[derive(Clone, Copy, Debug, PartialEq, Eq, Hash)]
pub struct GlobalCoord {
    pub zone_id: u128,
    pub coords: (usize, usize),
}

impl GlobalCoord {
    pub fn new(zone_id: u128, coords: (usize, usize)) -> (r: GlobalCoord)
        ensures
            r == (GlobalCoord { zone_id, coords }),
    {
        GlobalCoord { zone_id, coords }
    }
}

/// A tile as seen from a focus: its zone, its local coordinates, and its
/// offset in the focus's frame, which carries across portals.
#[derive(Clone, Copy, Debug, PartialEq, Eq, Structural, Hash)]
pub struct RelativeCoord {
    pub zone_id: u128,
    pub lx: usize,
    pub ly: usize,
    pub gx: i64,
    pub gy: i64,
}

impl RelativeCoord {
    pub fn new(zone_id: u128, coords: (usize, usize), g_coords: (i64, i64)) -> (r: RelativeCoord)
        ensures
            r == (RelativeCoord { zone_id, lx: coords.0, ly: coords.1, gx: g_coords.0, gy: g_coords.1 }),
    {
        let (x, y) = coords;
        let (gx, gy) = g_coords;
        RelativeCoord { zone_id, lx: x, ly: y, gx, gy }
    }
}

/// The ways an operation on the world can fail.
#[derive(Clone, Copy, Debug, PartialEq, Eq, Structural)]
pub enum WorldError {
    /// A portal's exits are not two opposite cardinal directions.
    PortalDirectionMismatch,
    /// A zone asked a portal for its far side, and the portal does not touch it.
    PortalZoneMismatch,
    /// No zone or portal has the given identifier.
    UnknownReference,
    /// The focus of a field-of-view query lies outside its zone.
    FocusOutOfBounds,
    /// Local coordinates lie outside their zone.
    CoordsOutOfBounds,
    /// A step was asked for with no direction.
    InvalidDirection,
    /// A portal would join a zone to itself, leave its zone, or share a tile.
    InvalidPortalPlacement,
    /// A freshly drawn identifier is already taken.
    IdCollision,
}

/// Every zone and portal, keyed by identifier.
pub struct World<W, Z, P> {
    data: W,
    zones: HashMap<u128, Zone<Z, P>>,
    portals: HashMap<u128, Portal>,
}

impl<W, Z, P> World<W, Z, P> {
    pub closed spec fn zone_map(&self) -> Map<u128, Zone<Z, P>> {
        self.zones@
    }

    pub closed spec fn portal_map(&self) -> Map<u128, Portal> {
        self.portals@
    }

    /// Portal `pid`, found on zone `zid`, is known to the world and both of
    /// its zones hold it.
    pub open spec fn portal_linked(&self, zid: u128, pid: u128) -> bool {
        let p = self.portal_map()[pid];
        &&& self.portal_map().contains_key(pid)
        &&& p.wf()
        &&& p.id == pid
        &&& p.a_zid != p.b_zid
        &&& (p.a_zid == zid || p.b_zid == zid)
        &&& self.zone_map().contains_key(p.a_zid)
        &&& self.zone_map().contains_key(p.b_zid)
        &&& self.zone_map()[p.a_zid]@.portals.contains_key(pid)
        &&& self.zone_map()[p.b_zid]@.portals.contains_key(pid)
    }

    /// Each zone is well formed and filed under its own id, and every portal
    /// that stands on a zone is known to the world and joins two zones.
    pub open spec fn wf(&self) -> bool {
        &&& forall|zid: u128| #[trigger]
            self.zone_map().contains_key(zid) ==> self.zone_map()[zid]@.wf()
                && self.zone_map()[zid]@.id == zid
        &&& forall|zid: u128, pid: u128|
            self.zone_map().contains_key(zid) && #[trigger] self.zone_map()[zid]@.portals.contains_key(
                pid,
            ) ==> self.portal_linked(zid, pid)
    }

    /// Where a step from `src` in `dir` lands: through the portal on `src`'s
    /// tile when that portal is left in `dir`, else one cell over in the same zone.
    pub open spec fn step_target(&self, src: GlobalCoord, dir: TraversalDirection) -> (u128, int, int) {
        let zone = self.zone_map()[src.zone_id]@;
        let d = dir.delta();
        match zone.tile_at(src.coords).portal_id {
            Some(pid) => {
                let info = self.portal_map()[pid].spec_info_from(src.zone_id);
                if info.is_ok() && info.unwrap().1 == dir {
                    let other = info.unwrap().0;
                    let c = self.zone_map()[other]@.portals[pid];
                    (other, c.0 + d.0, c.1 + d.1)
                } else {
                    (src.zone_id, src.coords.0 + d.0, src.coords.1 + d.1)
                }
            },
            None => (src.zone_id, src.coords.0 + d.0, src.coords.1 + d.1),
        }
    }

    /// The tile at `gc` holds a portal that is left from `gc`'s zone in `dir`.
    pub open spec fn exits_through_portal(&self, gc: GlobalCoord, dir: TraversalDirection) -> bool {
        match self.zone_map()[gc.zone_id]@.tile_at(gc.coords).portal_id {
            Some(pid) => {
                let info = self.portal_map()[pid].spec_info_from(gc.zone_id);
                info.is_ok() && info.unwrap().1 == dir
            },
            None => false,
        }
    }

    /// The outcome of one step of a walker from `src` in `dir`.
    pub open spec fn spec_try_traversal(&self, src: GlobalCoord, dir: TraversalDirection) -> Result<
        ZoneTraversalResult,
        WorldError,
    > {
        if !dir.is_cardinal() {
            Err(WorldError::InvalidDirection)
        } else if !self.zone_map().contains_key(src.zone_id) {
            Err(WorldError::UnknownReference)
        } else if !in_bounds(src.coords, self.zone_map()[src.zone_id]@.size) {
            Err(WorldError::CoordsOutOfBounds)
        } else {
            let (dz, dx, dy) = self.step_target(src, dir);
            let dest = self.zone_map()[dz]@;
            if dx < 0 || dy < 0 || dx >= dest.size || dy >= dest.size {
                Ok(ZoneTraversalResult::DestinationOutsideBounds)
            } else if !dest.tile_at((dx as usize, dy as usize)).passable {
                Ok(ZoneTraversalResult::DestinationBlocked)
            } else {
                Ok(
                    ZoneTraversalResult::Destination(
                        GlobalCoord { zone_id: dz, coords: (dx as usize, dy as usize) },
                    ),
                )
            }
        }
    }

    /// Placing a portal between `a` and `b` keeps each side on a free tile of
    /// an existing zone, and the two zones distinct.
    pub open spec fn placement_ok(
        &self,
        a: (u128, (usize, usize), TraversalDirection),
        b: (u128, (usize, usize), TraversalDirection),
    ) -> bool {
        &&& a.0 != b.0
        &&& in_bounds(a.1, self.zone_map()[a.0]@.size)
        &&& in_bounds(b.1, self.zone_map()[b.0]@.size)
        &&& self.zone_map()[a.0]@.tile_at(a.1).portal_id.is_none()
        &&& self.zone_map()[b.0]@.tile_at(b.1).portal_id.is_none()
    }

    pub fn new(data: W) -> (r: World<W, Z, P>)
        ensures
            r.wf(),
            r.zone_map().is_empty(),
            r.portal_map().is_empty(),
    {
        World { data, zones: HashMap::new(), portals: HashMap::new() }
    }

    pub fn data(&self) -> &W {
        &self.data
    }

    pub fn get_zone(&self, id: &u128) -> (r: Result<&Zone<Z, P>, WorldError>)
        ensures
            self.zone_map().contains_key(*id) ==> r == Ok::<&Zone<Z, P>, WorldError>(
                &self.zone_map()[*id],
            ),
            !self.zone_map().contains_key(*id) ==> r == Err::<&Zone<Z, P>, WorldError>(
                WorldError::UnknownReference,
            ),
    {
        match self.zones.get(id) {
            Some(z) => Ok(z),
            None => Err(WorldError::UnknownReference),
        }
    }

    pub fn get_portal(&self, id: u128) -> (r: Result<&Portal, WorldError>)
        ensures
            self.portal_map().contains_key(id) ==> r == Ok::<&Portal, WorldError>(
                &self.portal_map()[id],
            ),
            !self.portal_map().contains_key(id) ==> r == Err::<&Portal, WorldError>(
                WorldError::UnknownReference,
            ),
    {
        match self.portals.get(&id) {
            Some(p) => Ok(p),
            None => Err(WorldError::UnknownReference),
        }
    }

    pub fn get_payload(&self, gc: &GlobalCoord) -> (r: Result<&P, WorldError>)
        requires
            self.wf(),
        ensures
            !self.zone_map().contains_key(gc.zone_id) ==> r == Err::<&P, WorldError>(
                WorldError::UnknownReference,
            ),
            self.zone_map().contains_key(gc.zone_id) && !in_bounds(
                gc.coords,
                self.zone_map()[gc.zone_id]@.size,
            ) ==> r == Err::<&P, WorldError>(WorldError::CoordsOutOfBounds),
            self.zone_map().contains_key(gc.zone_id) && in_bounds(
                gc.coords,
                self.zone_map()[gc.zone_id]@.size,
            ) ==> r == Ok::<&P, WorldError>(
                &self.zone_map()[gc.zone_id]@.tile_at(gc.coords).payload,
            ),
    {
        let zone = match self.get_zone(&gc.zone_id) {
            Ok(z) => z,
            Err(e) => return Err(e),
        };
        if !zone.coords_in_bounds(gc.coords) {
            return Err(WorldError::CoordsOutOfBounds);
        }
        Ok(&zone.get_tile(gc.coords).payload)
    }
}


impl<W, Z, P> World<W, Z, P> {
    /// Places portal `pid` between `a` and `b`; what `new_portal` leaves
    /// behind on success.
    pub open spec fn portal_added(
        &self,
        old_world: &World<W, Z, P>,
        pid: u128,
        a: (u128, (usize, usize), TraversalDirection),
        b: (u128, (usize, usize), TraversalDirection),
    ) -> bool {
        let za = old_world.zone_map()[a.0]@;
        let zb = old_world.zone_map()[b.0]@;
        let na = self.zone_map()[a.0]@;
        let nb = self.zone_map()[b.0]@;
        &&& !old_world.portal_map().contains_key(pid)
        &&& self.portal_map() == old_world.portal_map().insert(
            pid,
            Portal { id: pid, a_zid: a.0, a_exit: a.2, b_zid: b.0, b_exit: b.2 },
        )
        &&& self.zone_map().dom() == old_world.zone_map().dom()
        &&& forall|zid: u128|
            #![trigger self.zone_map()[zid]]
            self.zone_map().contains_key(zid) && zid != a.0 && zid != b.0 ==> self.zone_map()[zid]
                == old_world.zone_map()[zid]
        &&& na.id == za.id && na.size == za.size && nb.id == zb.id && nb.size == zb.size
        &&& na.portals == za.portals.insert(pid, a.1)
        &&& nb.portals == zb.portals.insert(pid, b.1)
        &&& na.tiles == za.tiles.update(
            spec_idx(a.1.0 as int, a.1.1 as int, za.size as int),
            Tile { portal_id: Some(pid), ..za.tile_at(a.1) },
        )
        &&& nb.tiles == zb.tiles.update(
            spec_idx(b.1.0 as int, b.1.1 as int, zb.size as int),
            Tile { portal_id: Some(pid), ..zb.tile_at(b.1) },
        )
    }

    /// Joins tile `a` of one zone to tile `b` of another by a portal with
    /// identifier `id`. `a.2` and `b.2` are the directions in which a walker
    /// leaves each side. Fails with `IdCollision` when `id` is already taken.
    #[verifier::rlimit(60)]
    pub fn insert_portal(
        &mut self,
        id: u128,
        a: (u128, (usize, usize), TraversalDirection),
        b: (u128, (usize, usize), TraversalDirection),
    ) -> (r: Result<u128, WorldError>)
        requires
            old(self).wf(),
        ensures
            final(self).wf(),
            !exits_match(a.2, b.2) ==> r == Err::<u128, WorldError>(
                WorldError::PortalDirectionMismatch,
            ),
            exits_match(a.2, b.2) && !(old(self).zone_map().contains_key(a.0)
                && old(self).zone_map().contains_key(b.0)) ==> r == Err::<u128, WorldError>(
                WorldError::UnknownReference,
            ),
            exits_match(a.2, b.2) && old(self).zone_map().contains_key(a.0) && old(self).zone_map().contains_key(b.0) && !old(self).placement_ok(a, b) ==> r == Err::<
                u128,
                WorldError,
            >(WorldError::InvalidPortalPlacement),
            exits_match(a.2, b.2) && old(self).zone_map().contains_key(a.0) && old(self).zone_map().contains_key(b.0) && old(self).placement_ok(a, b) ==> {
                &&& old(self).portal_map().contains_key(id) ==> r == Err::<u128, WorldError>(
                    WorldError::IdCollision,
                )
                &&& !old(self).portal_map().contains_key(id) ==> r == Ok::<u128, WorldError>(id)
            },
            match r {
                Ok(pid) => pid == id && final(self).portal_added(old(self), pid, a, b),
                Err(_) => final(self).zone_map() == old(self).zone_map() && final(self).portal_map()
                    == old(self).portal_map(),
            },
    {
        let (az, ac, ax) = a;
        let (bz, bc, bx) = b;
        let next_id = id;
        let portal = match Portal::new(next_id, az, ax, bz, bx) {
            Ok(p) => p,
            Err(e) => return Err(e),
        };
        if !self.zones.contains_key(&az) || !self.zones.contains_key(&bz) {
            return Err(WorldError::UnknownReference);
        }
        if az == bz {
            return Err(WorldError::InvalidPortalPlacement);
        }
        let a_free = match self.get_zone(&az) {
            Ok(z) => {
                proof {
                    assert(self.zone_map().contains_key(az));
                    assert(z@.wf());
                }
                z.coords_in_bounds(ac) && z.get_tile(ac).portal_id.is_none()
            },
            Err(_) => false,
        };
        let b_free = match self.get_zone(&bz) {
            Ok(z) => {
                proof {
                    assert(self.zone_map().contains_key(bz));
                    assert(z@.wf());
                }
                z.coords_in_bounds(bc) && z.get_tile(bc).portal_id.is_none()
            },
            Err(_) => false,
        };
        if !a_free || !b_free {
            return Err(WorldError::InvalidPortalPlacement);
        }
        if self.portals.contains_key(&next_id) {
            return Err(WorldError::IdCollision);
        }
        let ghost old_zones = self.zones@;
        let ghost old_portals = self.portals@;
        proof {
            assert(!old_zones[az]@.portals.contains_key(next_id));
            assert(!old_zones[bz]@.portals.contains_key(next_id));
        }
        self.portals.insert(next_id, portal);
        let mut zone_a = match self.zones.remove(&az) {
            Some(z) => z,
            None => return Err(WorldError::UnknownReference),
        };
        zone_a.add_portal(next_id, ac);
        self.zones.insert(az, zone_a);
        let mut zone_b = match self.zones.remove(&bz) {
            Some(z) => z,
            None => return Err(WorldError::UnknownReference),
        };
        zone_b.add_portal(next_id, bc);
        self.zones.insert(bz, zone_b);
        proof {
            assert(self.zone_map().dom() =~= old_zones.dom());
            assert forall|zid: u128, pid: u128|
                self.zone_map().contains_key(zid) && #[trigger] self.zone_map()[zid]@.portals.contains_key(
                    pid,
                ) implies self.portal_linked(zid, pid) by {
                if pid != next_id {
                    assert(old(self).zone_map()[zid]@.portals.contains_key(pid));
                    assert(old(self).portal_linked(zid, pid));
                    let p = old_portals[pid];
                    assert(old(self).zone_map()[p.a_zid]@.portals.contains_key(pid));
                    assert(old(self).zone_map()[p.b_zid]@.portals.contains_key(pid));
                }
            }
        }
        Ok(next_id)
    }

    /// Joins tile `a` of one zone to tile `b` of another by a portal with a
    /// fresh random identifier. `a.2` and `b.2` are the directions in which a
    /// walker leaves each side.
    pub fn new_portal(
        &mut self,
        a: (u128, (usize, usize), TraversalDirection),
        b: (u128, (usize, usize), TraversalDirection),
    ) -> (r: Result<u128, WorldError>)
        requires
            old(self).wf(),
        ensures
            final(self).wf(),
            !exits_match(a.2, b.2) ==> r == Err::<u128, WorldError>(
                WorldError::PortalDirectionMismatch,
            ),
            exits_match(a.2, b.2) && !(old(self).zone_map().contains_key(a.0)
                && old(self).zone_map().contains_key(b.0)) ==> r == Err::<u128, WorldError>(
                WorldError::UnknownReference,
            ),
            exits_match(a.2, b.2) && old(self).zone_map().contains_key(a.0) && old(self).zone_map().contains_key(b.0) && !old(self).placement_ok(a, b) ==> r == Err::<
                u128,
                WorldError,
            >(WorldError::InvalidPortalPlacement),
            exits_match(a.2, b.2) && old(self).zone_map().contains_key(a.0) && old(self).zone_map().contains_key(b.0) && old(self).placement_ok(a, b) ==> (r is Ok || r
                == Err::<u128, WorldError>(WorldError::IdCollision)),
            match r {
                Ok(pid) => final(self).portal_added(old(self), pid, a, b),
                Err(_) => final(self).zone_map() == old(self).zone_map() && final(self).portal_map()
                    == old(self).portal_map(),
            },
    {
        let id = random_id();
        self.insert_portal(id, a, b)
    }

    /// Sets whether the tile at `gc` is passable and what payload it holds;
    /// its portal stays.
    pub fn set_tile(&mut self, gc: &GlobalCoord, passable: bool, payload: P) -> (r: Result<
        (),
        WorldError,
    >)
        requires
            old(self).wf(),
        ensures
            final(self).wf(),
            final(self).portal_map() == old(self).portal_map(),
            !old(self).zone_map().contains_key(gc.zone_id) ==> r == Err::<(), WorldError>(
                WorldError::UnknownReference,
            ),
            old(self).zone_map().contains_key(gc.zone_id) && !in_bounds(
                gc.coords,
                old(self).zone_map()[gc.zone_id]@.size,
            ) ==> r == Err::<(), WorldError>(WorldError::CoordsOutOfBounds),
            old(self).zone_map().contains_key(gc.zone_id) && in_bounds(
                gc.coords,
                old(self).zone_map()[gc.zone_id]@.size,
            ) ==> r is Ok,
            r is Err ==> final(self).zone_map() == old(self).zone_map(),
            r is Ok ==> {
                let z = old(self).zone_map()[gc.zone_id]@;
                let nz = final(self).zone_map()[gc.zone_id]@;
                &&& old(self).zone_map().contains_key(gc.zone_id)
                &&& in_bounds(gc.coords, z.size)
                &&& final(self).zone_map().dom() == old(self).zone_map().dom()
                &&& forall|zid: u128|
                    #![trigger final(self).zone_map()[zid]]
                    final(self).zone_map().contains_key(zid) && zid != gc.zone_id ==> final(self).zone_map()[zid] == old(self).zone_map()[zid]
                &&& nz.id == z.id && nz.size == z.size && nz.portals == z.portals
                &&& nz.tiles == z.tiles.update(
                    spec_idx(gc.coords.0 as int, gc.coords.1 as int, z.size as int),
                    Tile { passable, payload, portal_id: z.tile_at(gc.coords).portal_id },
                )
            },
    {
        let in_zone = match self.zones.get(&gc.zone_id) {
            Some(z) => z.coords_in_bounds(gc.coords),
            None => return Err(WorldError::UnknownReference),
        };
        if !in_zone {
            return Err(WorldError::CoordsOutOfBounds);
        }
        let ghost old_zones = self.zones@;
        let mut zone = match self.zones.remove(&gc.zone_id) {
            Some(z) => z,
            None => return Err(WorldError::UnknownReference),
        };
        proof {
            assert(zone@.wf());
            lemma_idx_in_square(gc.coords.0 as int, gc.coords.1 as int, zone@.size as int);
        }
        let idx = gc.coords.0 + gc.coords.1 * zone.size();
        zone.set_tile_contents(idx, passable, payload);
        self.zones.insert(gc.zone_id, zone);
        proof {
            assert(self.zone_map().dom() =~= old_zones.dom());
            assert forall|zid: u128, pid: u128|
                self.zone_map().contains_key(zid) && #[trigger] self.zone_map()[zid]@.portals.contains_key(
                    pid,
                ) implies self.portal_linked(zid, pid) by {
                assert(old(self).zone_map()[zid]@.portals.contains_key(pid));
                assert(old(self).portal_linked(zid, pid));
            }
        }
        Ok(())
    }

    /// Moves a walker one step from `src` in `dir`. A portal on `src`'s tile
    /// whose exit from this side is `dir` carries the walker to the cell just
    /// past the portal's far end.
    pub fn try_traversal(&self, src: GlobalCoord, dir: TraversalDirection) -> (r: Result<
        ZoneTraversalResult,
        WorldError,
    >)
        requires
            self.wf(),
        ensures
            r == self.spec_try_traversal(src, dir),
    {
        let delta: (i64, i64) = match dir {
            TraversalDirection::North => (0, -1),
            TraversalDirection::West => (-1, 0),
            TraversalDirection::South => (0, 1),
            TraversalDirection::East => (1, 0),
            TraversalDirection::NoDirection => return Err(WorldError::InvalidDirection),
        };
        let (d_x, d_y) = delta;
        let curr_zone = match self.get_zone(&src.zone_id) {
            Ok(z) => z,
            Err(e) => return Err(e),
        };
        if !curr_zone.coords_in_bounds(src.coords) {
            return Err(WorldError::CoordsOutOfBounds);
        }
        proof {
            assert(curr_zone@.wf());
            lemma_side_small(curr_zone@.size as int);
        }
        let (curr_x, curr_y) = src.coords;
        let curr_tile = curr_zone.get_tile(src.coords);
        let mut dest: (u128, i64, i64) = (src.zone_id, curr_x as i64 + d_x, curr_y as i64 + d_y);
        if let Some(pid) = curr_tile.portal_id {
            proof {
                lemma_idx_in_square(curr_x as int, curr_y as int, curr_zone@.size as int);
                let i = spec_idx(curr_x as int, curr_y as int, curr_zone@.size as int);
                assert(curr_zone@.tiles[i].portal_id == Some(pid));
                assert(curr_zone@.portals.contains_key(pid));
            }
            let portal = match self.get_portal(pid) {
                Ok(p) => p,
                Err(e) => return Err(e),
            };
            if let Ok((ozid, td)) = portal.info_from(src.zone_id) {
                if td == dir {
                    let other_zone = match self.get_zone(&ozid) {
                        Ok(z) => z,
                        Err(e) => return Err(e),
                    };
                    let (ocx, ocy) = match other_zone.get_portal_coords(&pid) {
                        Some(c) => c,
                        None => return Err(WorldError::UnknownReference),
                    };
                    proof {
                        assert(other_zone@.wf());
                        lemma_side_small(other_zone@.size as int);
                    }
                    dest = (ozid, ocx as i64 + d_x, ocy as i64 + d_y);
                }
            }
        }
        let (dest_zone_id, dx, dy) = dest;
        let dest_zone = match self.get_zone(&dest_zone_id) {
            Ok(z) => z,
            Err(e) => return Err(e),
        };
        proof {
            assert(dest_zone@.wf());
            lemma_side_small(dest_zone@.size as int);
        }
        if dx < 0 || dy < 0 || dx >= dest_zone.size() as i64 || dy >= dest_zone.size() as i64 {
            Ok(ZoneTraversalResult::DestinationOutsideBounds)
        } else {
            let clean_dc = (dx as usize, dy as usize);
            let dest_tile = dest_zone.get_tile(clean_dc);
            if !dest_tile.passable {
                Ok(ZoneTraversalResult::DestinationBlocked)
            } else {
                Ok(ZoneTraversalResult::Destination(GlobalCoord::new(dest_zone_id, clean_dc)))
            }
        }
    }
}

impl<W, Z, P: Payloadable> World<W, Z, P> {
    /// Adds a zone of side `size` under identifier `id`; `init` gives each
    /// tile, by its local coordinates, its passability and payload. Fails with
    /// `IdCollision` when `id` is already taken.
    pub fn insert_zone<F: Fn(usize, usize) -> (bool, P)>(
        &mut self,
        id: u128,
        size: usize,
        data: Z,
        init: F,
    ) -> (r:
        Result<u128, WorldError>)
        requires
            old(self).wf(),
            size * size <= usize::MAX,
            forall|x: usize, y: usize| #[trigger] init.requires((x, y)),
        ensures
            final(self).wf(),
            final(self).portal_map() == old(self).portal_map(),
            old(self).zone_map().contains_key(id) ==> r == Err::<u128, WorldError>(
                WorldError::IdCollision,
            ),
            !old(self).zone_map().contains_key(id) ==> r == Ok::<u128, WorldError>(id),
            match r {
                Ok(id) => {
                    let z = final(self).zone_map()[id]@;
                    &&& !old(self).zone_map().contains_key(id)
                    &&& final(self).zone_map() == old(self).zone_map().insert(
                        id,
                        final(self).zone_map()[id],
                    )
                    &&& z.size == size
                    &&& z.portals.is_empty()
                    &&& forall|i: int|
                        0 <= i < size * size ==> {
                            &&& (#[trigger] z.tiles[i]).portal_id.is_none()
                            &&& init.ensures(
                                ((i % size as int) as usize, (i / size as int) as usize),
                                (z.tiles[i].passable, z.tiles[i].payload),
                            )
                        }
                },
                Err(e) => e == WorldError::IdCollision && final(self).zone_map() == old(self).zone_map(),
            },
    {
        let zone_id = id;
        if self.zones.contains_key(&zone_id) {
            return Err(WorldError::IdCollision);
        }
        let mut z: Zone<Z, P> = Zone::new(size, zone_id, data);
        let limit = size * size;
        let mut idx: usize = 0;
        while idx < limit
            invariant
                limit == size * size,
                idx <= limit,
                z@.wf(),
                z@.id == zone_id,
                z@.size == size,
                z@.portals.is_empty(),
                forall|i: int| 0 <= i < limit ==> (#[trigger] z@.tiles[i]).portal_id.is_none(),
                forall|x: usize, y: usize| #[trigger] init.requires((x, y)),
                forall|i: int|
                    0 <= i < idx ==> init.ensures(
                        ((i % size as int) as usize, (i / size as int) as usize),
                        ((#[trigger] z@.tiles[i]).passable, z@.tiles[i].payload),
                    ),
            decreases limit - idx,
        {
            assert(size > 0) by (nonlinear_arith)
                requires
                    idx < limit,
                    limit == size * size,
            ;
            let (passable, payload) = init(idx % size, idx / size);
            z.set_tile_contents(idx, passable, payload);
            idx += 1;
        }
        self.zones.insert(zone_id, z);
        proof {
            assert forall|zid: u128| #[trigger] self.zone_map().contains_key(zid) implies self.zone_map()[zid]@.wf()
                && self.zone_map()[zid]@.id == zid by {
                if zid != zone_id {
                    assert(old(self).zone_map().contains_key(zid));
                }
            }
            assert forall|zid: u128, pid: u128|
                self.zone_map().contains_key(zid) && #[trigger] self.zone_map()[zid]@.portals.contains_key(
                    pid,
                ) implies self.portal_linked(zid, pid) by {
                assert(zid != zone_id);
                assert(old(self).zone_map()[zid]@.portals.contains_key(pid));
                assert(old(self).portal_linked(zid, pid));
            }
        }
        Ok(zone_id)
    }

    /// Adds a zone of side `size` under a fresh id; `init` gives each tile,
    /// by its local coordinates, its passability and payload.
    pub fn new_zone<F: Fn(usize, usize) -> (bool, P)>(&mut self, size: usize, data: Z, init: F) -> (r:
        Result<u128, WorldError>)
        requires
            old(self).wf(),
            size * size <= usize::MAX,
            forall|x: usize, y: usize| #[trigger] init.requires((x, y)),
        ensures
            final(self).wf(),
            final(self).portal_map() == old(self).portal_map(),
            match r {
                Ok(id) => {
                    let z = final(self).zone_map()[id]@;
                    &&& !old(self).zone_map().contains_key(id)
                    &&& final(self).zone_map() == old(self).zone_map().insert(
                        id,
                        final(self).zone_map()[id],
                    )
                    &&& z.size == size
                    &&& z.portals.is_empty()
                    &&& forall|i: int|
                        0 <= i < size * size ==> {
                            &&& (#[trigger] z.tiles[i]).portal_id.is_none()
                            &&& init.ensures(
                                ((i % size as int) as usize, (i / size as int) as usize),
                                (z.tiles[i].passable, z.tiles[i].payload),
                            )
                        }
                },
                Err(e) => e == WorldError::IdCollision && final(self).zone_map() == old(self).zone_map(),
            },
    {
        let id = random_id();
        self.insert_zone(id, size, data, init)
    }
}

/// A step that lands on `x` lands on an in-bounds, passable tile; and when
/// no portal lies between them (`src` holds none left in `d`, `x` holds none
/// left in the opposite direction) and `src` is passable, the step back from
/// `x` in the opposite direction lands on `src`.
pub proof fn lemma_traversal_composition<W, Z, P>(
    world: &World<W, Z, P>,
    src: GlobalCoord,
    d: TraversalDirection,
    x: GlobalCoord,
)
    requires
        world.wf(),
        world.spec_try_traversal(src, d) == Ok::<ZoneTraversalResult, WorldError>(
            ZoneTraversalResult::Destination(x),
        ),
    ensures
        world.zone_map().contains_key(x.zone_id),
        in_bounds(x.coords, world.zone_map()[x.zone_id]@.size),
        world.zone_map()[x.zone_id]@.tile_at(x.coords).passable,
        !world.exits_through_portal(src, d) && !world.exits_through_portal(x, d.spec_opposite())
            && world.zone_map()[src.zone_id]@.tile_at(src.coords).passable
            ==> world.spec_try_traversal(x, d.spec_opposite()) == Ok::<
            ZoneTraversalResult,
            WorldError,
        >(ZoneTraversalResult::Destination(src)),
{
    let z = world.zone_map()[src.zone_id]@;
    let t = world.step_target(src, d);
    assert(d.is_cardinal());
    assert(world.zone_map().contains_key(src.zone_id));
    assert(in_bounds(src.coords, z.size));
    assert(world.zone_map().contains_key(t.0)) by {
        if z.tile_at(src.coords).portal_id.is_some() {
            let pid = z.tile_at(src.coords).portal_id.unwrap();
            lemma_idx_in_square(src.coords.0 as int, src.coords.1 as int, z.size as int);
            let i = spec_idx(src.coords.0 as int, src.coords.1 as int, z.size as int);
            assert(z.tiles[i].portal_id == Some(pid));
            assert(z.portals.contains_key(pid));
        }
    }
    let dest = world.zone_map()[t.0]@;
    assert(dest.wf());
    assert(!(t.1 < 0 || t.2 < 0 || t.1 >= dest.size || t.2 >= dest.size));
    assert(dest.tile_at((t.1 as usize, t.2 as usize)).passable);
    assert(x == GlobalCoord { zone_id: t.0, coords: (t.1 as usize, t.2 as usize) });
    if !world.exits_through_portal(src, d) && !world.exits_through_portal(x, d.spec_opposite())
        && z.tile_at(src.coords).passable {
        let e = d.spec_opposite();
        assert(t.1 == src.coords.0 + d.delta().0 && t.2 == src.coords.1 + d.delta().1);
        assert(x.zone_id == src.zone_id);
        assert(e.is_cardinal());
        assert(e.delta().0 == -d.delta().0 && e.delta().1 == -d.delta().1);
        assert(x.coords.0 as int == t.1 && x.coords.1 as int == t.2);
        let back = world.step_target(x, e);
        assert(back == (x.zone_id, x.coords.0 + e.delta().0, x.coords.1 + e.delta().1));
        assert(back.0 == src.zone_id);
        assert(back.1 == src.coords.0 && back.2 == src.coords.1);
        assert((back.1 as usize, back.2 as usize) == src.coords);
    }
}

} // verus!
