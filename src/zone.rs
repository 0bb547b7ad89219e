//! Zones: square grids of tiles stored in row-major order.
use std::collections::HashMap;

use vstd::prelude::*;

use crate::world::{GlobalCoord, Payloadable};

verus! {

broadcast use vstd::std_specs::hash::group_hash_axioms;

/// The row-major index of local coordinates `(x, y)` in a zone of side `size`.
pub open spec fn spec_idx(x: int, y: int, size: int) -> int {
    x + y * size
}

/// Local coordinates lie inside a zone of side `size`.
pub open spec fn in_bounds(coords: (usize, usize), size: nat) -> bool {
    coords.0 < size && coords.1 < size
}

pub fn coords_to_idx(coords: (usize, usize), size: usize) -> (r: usize)
    requires
        coords.0 + coords.1 * size <= usize::MAX,
    ensures
        r == spec_idx(coords.0 as int, coords.1 as int, size as int),
{
    let (x, y) = coords;
    x + (y * size)
}

/// The outcome of one step of a walker.
#[derive(Clone, Copy, Debug, PartialEq, Eq)]
pub enum ZoneTraversalResult {
    Destination(GlobalCoord),
    DestinationBlocked,
    DestinationOutsideBounds,
}

/// One cell of a zone: whether a walker may enter it, the client's payload,
/// and the portal that stands on it, if any.
pub struct Tile<P> {
    pub passable: bool,
    pub payload: P,
    pub portal_id: Option<u128>,
}

impl<P> Tile<P> {
    pub fn new(passable: bool, payload: P) -> (r: Tile<P>)
        ensures
            r.passable == passable,
            r.payload == payload,
            r.portal_id.is_none(),
    {
        Tile { passable, payload, portal_id: None }
    }

    pub fn get_payload(&self) -> (r: &P)
        ensures
            *r == self.payload,
    {
        &self.payload
    }
}

impl<P: Payloadable> Tile<P> {
    /// A blank tile: not passable, the stub payload, no portal.
    pub fn stub() -> (r: Tile<P>)
        ensures
            !r.passable,
            r.payload == P::spec_stub(),
            r.portal_id.is_none(),
    {
        Tile { passable: false, payload: Tile::<P>::stub_payload(), portal_id: None }
    }

    pub fn stub_payload() -> (r: P)
        ensures
            r == P::spec_stub(),
    {
        P::stub()
    }
}

/// What a zone holds, as the contracts see it.
pub struct ZoneView<P> {
    pub id: u128,
    pub size: nat,
    pub tiles: Seq<Tile<P>>,
    /// Where each portal of the zone stands.
    pub portals: Map<u128, (usize, usize)>,
}

impl<P> ZoneView<P> {
    pub open spec fn tile_at(&self, coords: (usize, usize)) -> Tile<P> {
        self.tiles[spec_idx(coords.0 as int, coords.1 as int, self.size as int)]
    }

    /// The tiles fill the square, and the portal table and the tiles' portal
    /// marks describe the same placements.
    pub open spec fn wf(&self) -> bool {
        &&& self.tiles.len() == self.size * self.size
        &&& self.size <= usize::MAX
        &&& self.size * self.size <= usize::MAX
        &&& forall|pid: u128| #[trigger]
            self.portals.contains_key(pid) ==> {
                &&& in_bounds(self.portals[pid], self.size)
                &&& self.tile_at(self.portals[pid]).portal_id == Some(pid)
            }
        &&& forall|i: int|
            0 <= i < self.tiles.len() && (#[trigger] self.tiles[i]).portal_id.is_some() ==> {
                let pid = self.tiles[i].portal_id.unwrap();
                &&& self.portals.contains_key(pid)
                &&& spec_idx(
                    self.portals[pid].0 as int,
                    self.portals[pid].1 as int,
                    self.size as int,
                ) == i
            }
    }
}

/// A square grid of `size * size` tiles with an identifier and a client payload.
pub struct Zone<Z, P> {
    id: u128,
    data: Z,
    size: usize,
    all_tiles: Vec<Tile<P>>,
    portal_coords: HashMap<u128, (usize, usize)>,
}

impl<Z, P> View for Zone<Z, P> {
    type V = ZoneView<P>;

    closed spec fn view(&self) -> ZoneView<P> {
        ZoneView {
            id: self.id,
            size: self.size as nat,
            tiles: self.all_tiles@,
            portals: self.portal_coords@,
        }
    }
}

impl<Z, P: Payloadable> Zone<Z, P> {
    /// A zone of `size * size` stub tiles and no portals.
    pub fn new(size: usize, id: u128, data: Z) -> (r: Zone<Z, P>)
        requires
            size * size <= usize::MAX,
        ensures
            r@.wf(),
            r@.id == id,
            r@.size == size,
            r@.portals.is_empty(),
            forall|i: int|
                0 <= i < r@.tiles.len() ==> {
                    &&& (#[trigger] r@.tiles[i]).portal_id.is_none()
                    &&& !r@.tiles[i].passable
                    &&& r@.tiles[i].payload == P::spec_stub()
                },
    {
        let limit = size * size;
        let mut all_tiles: Vec<Tile<P>> = Vec::with_capacity(limit);
        let mut ctr: usize = 0;
        while ctr < limit
            invariant
                ctr <= limit,
                all_tiles@.len() == ctr,
                forall|i: int|
                    0 <= i < ctr ==> {
                        &&& (#[trigger] all_tiles@[i]).portal_id.is_none()
                        &&& !all_tiles@[i].passable
                        &&& all_tiles@[i].payload == P::spec_stub()
                    },
            decreases limit - ctr,
        {
            let tile: Tile<P> = Tile::<P>::stub();
            all_tiles.push(tile);
            ctr += 1;
        }
        Zone { id, data, size, all_tiles, portal_coords: HashMap::new() }
    }
}

impl<Z, P> Zone<Z, P> {
    pub fn id(&self) -> (r: u128)
        ensures
            r == self@.id,
    {
        self.id
    }

    pub fn size(&self) -> (r: usize)
        ensures
            r == self@.size,
    {
        self.size
    }

    pub fn data(&self) -> &Z {
        &self.data
    }

    pub fn get_portal_coords(&self, pid: &u128) -> (r: Option<(usize, usize)>)
        ensures
            r == (if self@.portals.contains_key(*pid) {
                Some(self@.portals[*pid])
            } else {
                None
            }),
    {
        match self.portal_coords.get(pid) {
            Some(c) => Some(*c),
            None => None,
        }
    }

    pub fn coords_in_bounds(&self, coords: (usize, usize)) -> (r: bool)
        ensures
            r == in_bounds(coords, self@.size),
    {
        let (x, y) = coords;
        x < self.size && y < self.size
    }

    pub fn tile_at_idx(&self, idx: usize) -> (r: &Tile<P>)
        requires
            idx < self@.tiles.len(),
        ensures
            *r == self@.tiles[idx as int],
    {
        &self.all_tiles[idx]
    }

    pub fn get_tile(&self, coords: (usize, usize)) -> (r: &Tile<P>)
        requires
            self@.wf(),
            in_bounds(coords, self@.size),
        ensures
            *r == self@.tile_at(coords),
    {
        proof {
            lemma_idx_in_square(coords.0 as int, coords.1 as int, self.size as int);
        }
        let idx = coords_to_idx(coords, self.size);
        self.tile_at_idx(idx)
    }

    /// Puts portal `pid` on the tile at `coords`.
    pub(crate) fn add_portal(&mut self, pid: u128, coords: (usize, usize))
        requires
            old(self)@.wf(),
            in_bounds(coords, old(self)@.size),
            old(self)@.tile_at(coords).portal_id.is_none(),
            !old(self)@.portals.contains_key(pid),
        ensures
            final(self)@.wf(),
            final(self)@.id == old(self)@.id,
            final(self)@.size == old(self)@.size,
            final(self)@.portals == old(self)@.portals.insert(pid, coords),
            final(self)@.tiles == old(self)@.tiles.update(
                spec_idx(coords.0 as int, coords.1 as int, old(self)@.size as int),
                Tile { portal_id: Some(pid), ..old(self)@.tile_at(coords) },
            ),
    {
        proof {
            lemma_idx_in_square(coords.0 as int, coords.1 as int, self.size as int);
        }
        let idx = coords_to_idx(coords, self.size);
        let ghost old_v = self@;
        let mut t = self.all_tiles.remove(idx);
        t.portal_id = Some(pid);
        self.all_tiles.insert(idx, t);
        self.portal_coords.insert(pid, coords);
        proof {
            let v = self@;
            assert(v.tiles =~= old_v.tiles.update(idx as int, v.tiles[idx as int]));
            assert forall|q: u128| #[trigger] v.portals.contains_key(q) implies {
                &&& in_bounds(v.portals[q], v.size)
                &&& v.tile_at(v.portals[q]).portal_id == Some(q)
            } by {
                if q != pid {
                    let c = old_v.portals[q];
                    lemma_idx_in_square(c.0 as int, c.1 as int, v.size as int);
                    if spec_idx(c.0 as int, c.1 as int, v.size as int) == idx as int {
                        lemma_idx_injective(
                            c.0 as int,
                            c.1 as int,
                            coords.0 as int,
                            coords.1 as int,
                            v.size as int,
                        );
                    }
                }
            }
            assert forall|i: int|
                0 <= i < v.tiles.len() && (#[trigger] v.tiles[i]).portal_id.is_some() implies {
                let q = v.tiles[i].portal_id.unwrap();
                &&& v.portals.contains_key(q)
                &&& spec_idx(v.portals[q].0 as int, v.portals[q].1 as int, v.size as int) == i
            } by {
                if i != idx {
                    assert(v.tiles[i] == old_v.tiles[i]);
                }
            }
        }
    }

    /// Replaces what the tile at index `idx` holds, keeping its portal.
    pub(crate) fn set_tile_contents(&mut self, idx: usize, passable: bool, payload: P)
        requires
            old(self)@.wf(),
            idx < old(self)@.tiles.len(),
        ensures
            final(self)@.wf(),
            final(self)@.id == old(self)@.id,
            final(self)@.size == old(self)@.size,
            final(self)@.portals == old(self)@.portals,
            final(self)@.tiles == old(self)@.tiles.update(
                idx as int,
                Tile { passable, payload, portal_id: old(self)@.tiles[idx as int].portal_id },
            ),
    {
        let ghost old_v = self@;
        let mut t = self.all_tiles.remove(idx);
        t.passable = passable;
        t.payload = payload;
        self.all_tiles.insert(idx, t);
        proof {
            let v = self@;
            assert(v.tiles =~= old_v.tiles.update(idx as int, v.tiles[idx as int]));
            assert forall|q: u128| #[trigger] v.portals.contains_key(q) implies {
                &&& in_bounds(v.portals[q], v.size)
                &&& v.tile_at(v.portals[q]).portal_id == Some(q)
            } by {
                let c = old_v.portals[q];
                lemma_idx_in_square(c.0 as int, c.1 as int, v.size as int);
            }
            assert forall|i: int|
                0 <= i < v.tiles.len() && (#[trigger] v.tiles[i]).portal_id.is_some() implies {
                let q = v.tiles[i].portal_id.unwrap();
                &&& v.portals.contains_key(q)
                &&& spec_idx(v.portals[q].0 as int, v.portals[q].1 as int, v.size as int) == i
            } by {
                assert(v.tiles[i].portal_id == old_v.tiles[i].portal_id);
            }
        }
    }
}

/// An index of a square of side `size` lies in the square.
pub proof fn lemma_idx_in_square(x: int, y: int, size: int)
    requires
        0 <= x < size,
        0 <= y < size,
    ensures
        0 <= spec_idx(x, y, size) < size * size,
{
    assert(0 <= y * size <= (size - 1) * size) by (nonlinear_arith)
        requires
            0 <= y < size,
    ;
    assert((size - 1) * size + size == size * size) by (nonlinear_arith);
}

/// A side of at most `2^32` follows from a square that fits in `usize`.
pub proof fn lemma_side_small(size: int)
    requires
        0 <= size,
        size * size <= usize::MAX,
    ensures
        size <= 0x1_0000_0000,
{
    if size > 0x1_0000_0000 {
        assert(size * size > 0x1_0000_0000 * 0x1_0000_0000) by (nonlinear_arith)
            requires
                size > 0x1_0000_0000,
        ;
    }
}

/// Distinct in-bounds coordinates have distinct indices.
pub proof fn lemma_idx_injective(x1: int, y1: int, x2: int, y2: int, size: int)
    requires
        0 <= x1 < size,
        0 <= y1 < size,
        0 <= x2 < size,
        0 <= y2 < size,
        spec_idx(x1, y1, size) == spec_idx(x2, y2, size),
    ensures
        x1 == x2,
        y1 == y2,
{
    if y1 < y2 {
        assert(y1 * size + size <= y2 * size) by (nonlinear_arith)
            requires
                y1 < y2,
                0 <= size,
        ;
    } else if y2 < y1 {
        assert(y2 * size + size <= y1 * size) by (nonlinear_arith)
            requires
                y2 < y1,
                0 <= size,
        ;
    }
}

} // verus!
