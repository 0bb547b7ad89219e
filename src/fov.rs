//! Recursive shadow-casting field of view across zones and portals.
use vstd::prelude::*;

use crate::world::{Payloadable, RelativeCoord, TraversalDirection, World, WorldError};
use crate::zone::{in_bounds, lemma_idx_in_square, lemma_side_small, spec_idx, Zone, ZoneView};

verus! {

/// How a tile's payload treats sight: it stops it, lets it through, or is
/// no tile at all (seen through, never seen).
#[derive(Clone, Copy, Debug, PartialEq, Eq, Structural)]
pub enum FovType {
    Blocking,
    Transparent,
    Void,
}

impl FovType {
    pub open spec fn spec_allow_los(self) -> bool {
        self != FovType::Blocking
    }

    pub fn allow_los(&self) -> (r: bool)
        ensures
            r == self.spec_allow_los(),
    {
        match *self {
            FovType::Transparent | FovType::Void => true,
            FovType::Blocking => false,
        }
    }
}

impl Default for FovType {
    fn default() -> (r: FovType)
        ensures
            r == FovType::Void,
    {
        FovType::Void
    }
}

/// A tile payload that states how it treats sight.
pub trait FovItem {
    /// The sight class of this payload.
    spec fn fov_spec(&self) -> FovType;

    fn get_fov(&self) -> (r: FovType)
        ensures
            r == self.fov_spec(),
    ;
}

/// The plainest payload: a tile that is nothing but its sight class.
impl FovItem for FovType {
    open spec fn fov_spec(&self) -> FovType {
        *self
    }

    fn get_fov(&self) -> (r: FovType) {
        *self
    }
}

impl Payloadable for FovType {
    open spec fn spec_stub() -> FovType {
        FovType::Void
    }

    fn stub() -> (r: FovType) {
        FovType::Void
    }
}

pub open spec fn abs(a: int) -> int {
    if a < 0 {
        -a
    } else {
        a
    }
}

/// `c` lies within Chebyshev distance `radius` of `focus` in the focus's frame.
pub open spec fn within_radius(c: RelativeCoord, focus: RelativeCoord, radius: int) -> bool {
    &&& abs(c.gx - focus.gx) <= radius
    &&& abs(c.gy - focus.gy) <= radius
}

/// `c` names an in-bounds tile of a zone of `world` that is not `Void`.
pub open spec fn names_real_tile<W, Z, P: FovItem>(world: &World<W, Z, P>, c: RelativeCoord) -> bool {
    &&& world.zone_map().contains_key(c.zone_id)
    &&& in_bounds((c.lx, c.ly), world.zone_map()[c.zone_id]@.size)
    &&& world.zone_map()[c.zone_id]@.tile_at((c.lx, c.ly)).payload.fov_spec() != FovType::Void
}

/// What every tile reported by a query from `focus` satisfies: it is the
/// focus itself, or a real tile within the radius.
pub open spec fn reportable<W, Z, P: FovItem>(
    world: &World<W, Z, P>,
    focus: RelativeCoord,
    radius: int,
    c: RelativeCoord,
) -> bool {
    c == focus || (names_real_tile(world, c) && within_radius(c, focus, radius))
}

/// `s` holds no tile twice, and every tile in it is reportable.
#[verifier::opaque]
spec fn all_reportable<W, Z, P: FovItem>(
    world: &World<W, Z, P>,
    focus: RelativeCoord,
    radius: int,
    s: Seq<RelativeCoord>,
) -> bool {
    &&& s.no_duplicates()
    &&& forall|i: int| 0 <= i < s.len() ==> reportable(world, focus, radius, #[trigger] s[i])
}

/// Every tile of zone `zid` is transparent and holds no portal.
pub open spec fn all_clear<W, Z, P: FovItem>(world: &World<W, Z, P>, zid: u128) -> bool {
    &&& world.zone_map().contains_key(zid)
    &&& forall|i: int|
        0 <= i < world.zone_map()[zid]@.tiles.len() ==> {
            &&& (#[trigger] world.zone_map()[zid]@.tiles[i]).payload.fov_spec()
                == FovType::Transparent
            &&& world.zone_map()[zid]@.tiles[i].portal_id.is_none()
        }
}

/// No tile of zone `zid` holds a portal.
pub open spec fn portal_free<W, Z, P>(world: &World<W, Z, P>, zid: u128) -> bool {
    &&& world.zone_map().contains_key(zid)
    &&& forall|i: int|
        0 <= i < world.zone_map()[zid]@.tiles.len() ==> (#[trigger] world.zone_map()[
            zid
        ]@.tiles[i]).portal_id.is_none()
}

/// `c` is a tile of the focus's zone within Chebyshev distance `radius` of
/// the focus, placed in the focus's frame.
pub open spec fn in_square<W, Z, P: FovItem>(
    world: &World<W, Z, P>,
    focus: RelativeCoord,
    radius: int,
    c: RelativeCoord,
) -> bool {
    &&& c.zone_id == focus.zone_id
    &&& in_bounds((c.lx, c.ly), world.zone_map()[focus.zone_id]@.size)
    &&& abs(c.lx - focus.lx) <= radius
    &&& abs(c.ly - focus.ly) <= radius
    &&& c.gx == focus.gx + (c.lx - focus.lx)
    &&& c.gy == focus.gy + (c.ly - focus.ly)
}

/// Seen from the focus's zone, the portal under the focus: the zone at its
/// far end, the far end's tile, and the direction in which one leaves
/// through it.
pub open spec fn far_end<W, Z, P>(world: &World<W, Z, P>, focus: RelativeCoord) -> (
    u128,
    (usize, usize),
    TraversalDirection,
) {
    let pid = world.zone_map()[focus.zone_id]@.tile_at((focus.lx, focus.ly)).portal_id.unwrap();
    let info = world.portal_map()[pid].spec_info_from(focus.zone_id).unwrap();
    (info.0, world.zone_map()[info.0]@.portals[pid], info.1)
}

/// The tile one step past the far end of the portal under the focus, in the
/// direction one leaves through it, placed in the focus's frame.
pub open spec fn past_far_end<W, Z, P>(world: &World<W, Z, P>, focus: RelativeCoord) -> RelativeCoord {
    let end = far_end(world, focus);
    let d = end.2.delta();
    RelativeCoord {
        zone_id: end.0,
        lx: (end.1.0 + d.0) as usize,
        ly: (end.1.1 + d.1) as usize,
        gx: (focus.gx + d.0) as i64,
        gy: (focus.gy + d.1) as i64,
    }
}

/// The focus stands on a portal, the radius reaches one step, and the tile
/// one step past the portal's far end is in bounds, transparent and free of
/// portals.
pub open spec fn sees_past_portal<W, Z, P: FovItem>(
    world: &World<W, Z, P>,
    focus: RelativeCoord,
    radius: int,
) -> bool {
    let end = far_end(world, focus);
    let x = end.1.0 + end.2.delta().0;
    let y = end.1.1 + end.2.delta().1;
    let zv = world.zone_map()[end.0]@;
    &&& radius >= 1
    &&& world.zone_map()[focus.zone_id]@.tile_at((focus.lx, focus.ly)).portal_id.is_some()
    &&& 0 <= x < zv.size
    &&& 0 <= y < zv.size
    &&& zv.tile_at((x as usize, y as usize)).payload.fov_spec() == FovType::Transparent
    &&& zv.tile_at((x as usize, y as usize)).portal_id.is_none()
}

/// Local tile `(x, y)` of the focus's zone, placed in the focus's frame.
spec fn placed(focus: RelativeCoord, x: int, y: int) -> RelativeCoord {
    RelativeCoord {
        zone_id: focus.zone_id,
        lx: x as usize,
        ly: y as usize,
        gx: (focus.gx + (x - focus.lx)) as i64,
        gy: (focus.gy + (y - focus.ly)) as i64,
    }
}

/// Every tile in `s` lies in the focus's zone, placed in the focus's frame.
#[verifier::opaque]
spec fn framed(focus: RelativeCoord, s: Seq<RelativeCoord>) -> bool {
    forall|i: int|
        0 <= i < s.len() ==> {
            &&& (#[trigger] s[i]).zone_id == focus.zone_id
            &&& s[i].gx == focus.gx + (s[i].lx - focus.lx)
            &&& s[i].gy == focus.gy + (s[i].ly - focus.ly)
        }
}

/// The local coordinates of cell `p` of line `it` of the octant with signs
/// `(dx, dy)` and orientation `is_vert`, swept from the focus.
spec fn octant_cell(focus: RelativeCoord, dx: i64, dy: i64, is_vert: bool, it: int, p: int) -> (int, int) {
    let along = if is_vert {
        if dx == 1 {
            p
        } else {
            -p
        }
    } else {
        if dx == 1 {
            it
        } else {
            -it
        }
    };
    let across = if is_vert {
        if dy == 1 {
            it
        } else {
            -it
        }
    } else {
        if dy == 1 {
            p
        } else {
            -p
        }
    };
    (focus.lx + along, focus.ly + across)
}

/// Every in-bounds cell of the octant's lines `1..=last` (and of line
/// `last + 1` up to cell `cells`) is reported in `s`.
#[verifier::opaque]
spec fn covered(
    focus: RelativeCoord,
    size: int,
    s: Seq<RelativeCoord>,
    dx: i64,
    dy: i64,
    is_vert: bool,
    last: int,
    cells: int,
) -> bool {
    forall|it: int, p: int|
        1 <= it && 0 <= p <= it && (it <= last || (it == last + 1 && p < cells)) ==> {
            let c = #[trigger] octant_cell(focus, dx, dy, is_vert, it, p);
            0 <= c.0 < size && 0 <= c.1 < size ==> s.contains(placed(focus, c.0, c.1))
        }
}

proof fn lemma_covered_keeps(
    focus: RelativeCoord,
    size: int,
    a: Seq<RelativeCoord>,
    b: Seq<RelativeCoord>,
    dx: i64,
    dy: i64,
    is_vert: bool,
    last: int,
    cells: int,
)
    requires
        covered(focus, size, a, dx, dy, is_vert, last, cells),
        keeps(a, b),
    ensures
        covered(focus, size, b, dx, dy, is_vert, last, cells),
{
    reveal(covered);
    reveal(keeps);
}

proof fn lemma_framed_push(focus: RelativeCoord, a: Seq<RelativeCoord>, b: Seq<RelativeCoord>, c: RelativeCoord)
    requires
        framed(focus, a),
        b == a || b == a.push(c),
        c.zone_id == focus.zone_id,
        c.gx == focus.gx + (c.lx - focus.lx),
        c.gy == focus.gy + (c.ly - focus.ly),
    ensures
        framed(focus, b),
{
    reveal(framed);
    if b != a {
        assert forall|i: int| 0 <= i < b.len() implies {
            &&& (#[trigger] b[i]).zone_id == focus.zone_id
            &&& b[i].gx == focus.gx + (b[i].lx - focus.lx)
            &&& b[i].gy == focus.gy + (b[i].ly - focus.ly)
        } by {
            if i < a.len() {
                assert(b[i] == a[i]);
            }
        }
    }
}

/// Entry `e` is the focus's own zone, entered at the focus.
spec fn from_focus(focus: RelativeCoord, e: PendingZone) -> bool {
    &&& e.from_portal.is_none()
    &&& e.zone_id == focus.zone_id
    &&& e.entry == (focus.lx, focus.ly)
}

/// Entry `e` is the focus's own zone, and that zone holds no portal.
spec fn plain_origin<W, Z, P: FovItem>(world: &World<W, Z, P>, focus: RelativeCoord, e: PendingZone) -> bool {
    &&& from_focus(focus, e)
    &&& portal_free(world, focus.zone_id)
}

/// Entry `e` is the focus's own zone, and that zone is clear.
spec fn clear_origin<W, Z, P: FovItem>(world: &World<W, Z, P>, focus: RelativeCoord, e: PendingZone) -> bool {
    &&& from_focus(focus, e)
    &&& all_clear(world, focus.zone_id)
}

/// Cell `(x, y)` of entry `e`'s zone is in bounds, transparent and free of
/// portals, and lies neither on nor behind the wall of the entry portal.
spec fn open_cell<W, Z, P: FovItem>(world: &World<W, Z, P>, e: PendingZone, x: int, y: int) -> bool {
    let zv = world.zone_map()[e.zone_id]@;
    let rx = e.entry.0 as int;
    let ry = e.entry.1 as int;
    &&& 0 <= x < zv.size
    &&& 0 <= y < zv.size
    &&& zv.tiles[x + y * zv.size].payload.fov_spec() == FovType::Transparent
    &&& zv.tiles[x + y * zv.size].portal_id.is_none()
    &&& match e.from_dir {
        TraversalDirection::North => y < ry,
        TraversalDirection::South => y > ry,
        TraversalDirection::East => x > rx,
        TraversalDirection::West => x < rx,
        TraversalDirection::NoDirection => true,
    }
}

/// Tile `(x, y)` of zone `zid`, placed in the focus's frame as a sweep from
/// `(vx, vy)` places it.
spec fn seen_tile(focus: RelativeCoord, zid: u128, vx: int, vy: int, x: int, y: int) -> RelativeCoord {
    RelativeCoord {
        zone_id: zid,
        lx: x as usize,
        ly: y as usize,
        gx: (focus.gx + (x - vx)) as i64,
        gy: (focus.gy + (y - vy)) as i64,
    }
}

/// The tile one step past entry `e`'s tile, in the direction of entry.
spec fn past_entry(e: PendingZone) -> (int, int) {
    (e.entry.0 + e.from_dir.delta().0, e.entry.1 + e.from_dir.delta().1)
}

/// `e` enters through a portal at the focus's own offset, with radius left,
/// and the tile just past its entry tile is open.
spec fn opens_onto<W, Z, P: FovItem>(world: &World<W, Z, P>, e: PendingZone) -> bool {
    &&& e.from_portal.is_some()
    &&& e.from_dir.is_cardinal()
    &&& e.rel == (0i64, 0i64)
    &&& e.radius >= 1
    &&& open_cell(world, e, past_entry(e).0, past_entry(e).1)
}

/// The octant whose first line starts with the tile just past an entry in
/// direction `d`.
spec fn dir_octant(d: TraversalDirection) -> int {
    match d {
        TraversalDirection::South => 0,
        TraversalDirection::East => 1,
        TraversalDirection::North => 2,
        TraversalDirection::West => 5,
        TraversalDirection::NoDirection => 8,
    }
}

/// Everything in `a` is still in `b`.
#[verifier::opaque]
spec fn keeps(a: Seq<RelativeCoord>, b: Seq<RelativeCoord>) -> bool {
    forall|c: RelativeCoord| a.contains(c) ==> b.contains(c)
}

proof fn lemma_keeps_trans(a: Seq<RelativeCoord>, b: Seq<RelativeCoord>, c: Seq<RelativeCoord>)
    requires
        keeps(a, b),
        keeps(b, c),
    ensures
        keeps(a, c),
{
    reveal(keeps);
}

proof fn lemma_keeps_refl(a: Seq<RelativeCoord>)
    ensures
        keeps(a, a),
{
    reveal(keeps);
}

/// `b` starts with `a`.
#[verifier::opaque]
spec fn prefix_kept(a: Seq<PendingZone>, b: Seq<PendingZone>) -> bool {
    &&& a.len() <= b.len()
    &&& forall|j: int| 0 <= j < a.len() ==> b[j] == a[j]
}

proof fn lemma_prefix_trans(a: Seq<PendingZone>, b: Seq<PendingZone>, c: Seq<PendingZone>)
    requires
        prefix_kept(a, b),
        prefix_kept(b, c),
    ensures
        prefix_kept(a, c),
{
    reveal(prefix_kept);
}

proof fn lemma_prefix_refl(a: Seq<PendingZone>)
    ensures
        prefix_kept(a, a),
{
    reveal(prefix_kept);
}

/// A zone waiting to be swept: where the sweep enters it, the entry tile's
/// offset from the focus, the radius left, and the portal and direction of
/// entry (none for the focus's own zone).
#[derive(Clone, Copy)]
pub struct PendingZone {
    pub zone_id: u128,
    pub entry: (usize, usize),
    pub rel: (i64, i64),
    pub radius: u32,
    pub from_portal: Option<u128>,
    pub from_dir: TraversalDirection,
}

/// `e` enters an existing zone at an in-bounds tile, within the query's radius.
spec fn entry_ok<W, Z, P>(world: &World<W, Z, P>, e: PendingZone, radius: int) -> bool {
    &&& world.zone_map().contains_key(e.zone_id)
    &&& in_bounds(e.entry, world.zone_map()[e.zone_id]@.size)
    &&& e.radius <= radius
    &&& abs(e.rel.0 as int) <= radius
    &&& abs(e.rel.1 as int) <= radius
    &&& (e.from_portal.is_none() <==> e.from_dir == TraversalDirection::NoDirection)
    &&& e.from_portal.is_none() ==> e.rel == (0i64, 0i64)
}

/// Entries found while sweeping `parent`: each enters through a portal, and
/// each has less radius left than `parent` unless `parent` is the focus's zone.
#[verifier::opaque]
spec fn children_ok<W, Z, P>(
    world: &World<W, Z, P>,
    parent: PendingZone,
    radius: int,
    cs: Seq<PendingZone>,
) -> bool {
    forall|i: int|
        0 <= i < cs.len() ==> {
            &&& entry_ok(world, #[trigger] cs[i], radius)
            &&& cs[i].from_portal.is_some()
            &&& if parent.from_portal.is_none() {
                cs[i].radius <= parent.radius
            } else {
                cs[i].radius < parent.radius
            }
        }
}

/// Two bounded factors give a bounded product.
proof fn lemma_mul_bounded(a: int, b: int)
    requires
        -0x10_0000_0000 <= a <= 0x10_0000_0000,
        0 <= b <= 0x10_0000_0000,
    ensures
        -0x100_0000_0000_0000_0000 <= a * b <= 0x100_0000_0000_0000_0000,
{
    assert(-0x10_0000_0000 * b <= a * b <= 0x10_0000_0000 * b) by (nonlinear_arith)
        requires
            -0x10_0000_0000 <= a <= 0x10_0000_0000,
            0 <= b,
    ;
}

/// `floor(a * n / d) <= n` when `a <= d`.
proof fn lemma_floor_scaled(a: int, d: int, n: int)
    requires
        0 <= a <= d,
        1 <= d,
        0 <= n,
    ensures
        0 <= (a * n) / d <= n,
{
    assert(0 <= a * n <= d * n) by (nonlinear_arith)
        requires
            0 <= a <= d,
            0 <= n,
    ;
    vstd::arithmetic::div_mod::lemma_div_is_ordered(a * n, d * n, d);
    vstd::arithmetic::div_mod::lemma_div_by_multiple(n, d);
    vstd::arithmetic::div_mod::lemma_div_pos_is_pos(a * n, d);
    assert(d * n == n * d) by (nonlinear_arith);
}

/// `s` with `c` added at the end, unless `s` holds it already.
pub open spec fn with_tile(s: Seq<RelativeCoord>, c: RelativeCoord) -> Seq<RelativeCoord> {
    if s.contains(c) {
        s
    } else {
        s.push(c)
    }
}

/// Adds `c` to `out` unless it is there already.
fn push_unique(out: &mut Vec<RelativeCoord>, c: RelativeCoord)
    requires
        old(out)@.no_duplicates(),
    ensures
        final(out)@.no_duplicates(),
        final(out)@.contains(c),
        final(out)@ == old(out)@ || final(out)@ == old(out)@.push(c),
        final(out)@ == with_tile(old(out)@, c),
{
    let mut i: usize = 0;
    let mut found = false;
    while i < out.len() && !found
        invariant
            i <= out@.len(),
            out@ == old(out)@,
            found ==> out@.contains(c),
            !found ==> forall|j: int| 0 <= j < i ==> out@[j] != c,
        decreases out@.len() - i + (if found { 0int } else { 1int }),
    {
        if out[i] == c {
            found = true;
        } else {
            i += 1;
        }
    }
    if !found {
        out.push(c);
        proof {
            assert(out@.last() == c);
            assert forall|a: int, b: int| 0 <= a < b < out@.len() implies out@[a] != out@[b] by {
                if b == out@.len() - 1 {
                    assert(out@[a] == old(out)@[a]);
                }
            }
        }
    }
}

/// Whether `in_fov` marks the linear index `c`; indices outside the zone are never marked.
fn fov_has(in_fov: &Vec<bool>, c: i128) -> (r: bool)
    ensures
        r == (0 <= c < in_fov@.len() && in_fov@[c as int]),
{
    if 0 <= c && c < in_fov.len() as i128 {
        in_fov[c as usize]
    } else {
        false
    }
}

/// Some obstacle among the first `count` shades the cell `k` of a line whose
/// cells span slopes of width `1 / n`: a transparent cell by its centre, an
/// opaque one by its whole span.
pub open spec fn shaded(obstacles: Seq<(u64, u64, u64)>, count: int, k: int, n: int, allow_los: bool) -> bool {
    exists|i: int|
        0 <= i < count && {
            let (s, e, d) = #[trigger] obstacles[i];
            if allow_los {
                (2 * k + 1) * d > 2 * n * s && (2 * k + 1) * d < 2 * n * e
            } else {
                k * d >= s * n && (k + 1) * d <= e * n
            }
        }
}

/// Recorded obstacles are slope intervals `[s/d, (s+1)/d]` within `[0, 1]`.
spec fn obstacles_ok(obstacles: Seq<(u64, u64, u64)>, max_den: int) -> bool {
    forall|i: int|
        0 <= i < obstacles.len() ==> {
            let (s, e, d) = #[trigger] obstacles[i];
            &&& e == s + 1
            &&& e <= d
            &&& 1 <= d <= max_den
        }
}

fn slope_occluded(obstacles: &Vec<(u64, u64, u64)>, count: usize, k: u64, n: u64, allow_los: bool) -> (r:
    bool)
    requires
        count <= obstacles@.len(),
        obstacles_ok(obstacles@, 0x2_0000_0000),
        k < n <= 0x2_0000_0000,
    ensures
        r == shaded(obstacles@, count as int, k as int, n as int, allow_los),
{
    let mut idx: usize = 0;
    while idx < count
        invariant
            idx <= count,
            count <= obstacles@.len(),
            obstacles_ok(obstacles@, 0x2_0000_0000),
            k < n <= 0x2_0000_0000,
            !shaded(obstacles@, idx as int, k as int, n as int, allow_los),
        decreases count - idx,
    {
        let (s, e, d) = obstacles[idx];
        proof {
            lemma_mul_bounded(2 * k + 1, d as int);
            lemma_mul_bounded(2 * n, s as int);
            lemma_mul_bounded(2 * n, e as int);
            lemma_mul_bounded(k as int, d as int);
            lemma_mul_bounded(k + 1, d as int);
            lemma_mul_bounded(n as int, s as int);
            lemma_mul_bounded(n as int, e as int);
            assert(s * n == n * s) by (nonlinear_arith);
            assert(e * n == n * e) by (nonlinear_arith);
        }
        let hit = if allow_los {
            let centre = (2 * k as u128 + 1) * d as u128;
            centre > 2 * (n as u128) * (s as u128) && centre < 2 * (n as u128) * (e as u128)
        } else {
            (k as u128) * (d as u128) >= (n as u128) * (s as u128) && (k as u128 + 1) * (d as u128)
                <= (n as u128) * (e as u128)
        };
        if hit {
            return true;
        }
        proof {
            assert forall|i: int| 0 <= i < idx + 1 implies !({
                let (s, e, d) = #[trigger] obstacles@[i];
                if allow_los {
                    (2 * k + 1) * d > 2 * n * s && (2 * k + 1) * d < 2 * n * e
                } else {
                    k * d >= s * n && (k + 1) * d <= e * n
                }
            }) by {
                if i < idx {
                    assert(!shaded(obstacles@, idx as int, k as int, n as int, allow_los));
                }
            }
        }
        idx += 1;
    }
    false
}


/// The entry into the far side of portal `pid`, found on zone `zid`.
pub open spec fn child_spec<W, Z, P>(
    world: &World<W, Z, P>,
    zid: u128,
    pid: u128,
    rel: (i64, i64),
    remaining: u32,
) -> PendingZone {
    let info = world.portal_map()[pid].spec_info_from(zid).unwrap();
    PendingZone {
        zone_id: info.0,
        entry: world.zone_map()[info.0]@.portals[pid],
        rel,
        radius: remaining,
        from_portal: Some(pid),
        from_dir: info.1,
    }
}

/// The entry into the far side of portal `pid`, found on zone `zid`.
fn build_pending_zone_entry<W, Z, P>(
    world: &World<W, Z, P>,
    zid: u128,
    pid: u128,
    rel: (i64, i64),
    remaining: u32,
) -> (r: Result<PendingZone, WorldError>)
    requires
        world.wf(),
        world.zone_map().contains_key(zid),
        world.zone_map()[zid]@.portals.contains_key(pid),
    ensures
        match r {
            Ok(e) => {
                &&& world.zone_map().contains_key(e.zone_id)
                &&& in_bounds(e.entry, world.zone_map()[e.zone_id]@.size)
                &&& e.rel == rel
                &&& e.radius == remaining
                &&& e.from_portal == Some(pid)
                &&& e.from_dir.is_cardinal()
                &&& e == child_spec(world, zid, pid, rel, remaining)
            },
            Err(_) => false,
        },
{
    let portal = match world.get_portal(pid) {
        Ok(p) => p,
        Err(err) => return Err(err),
    };
    let (ozid, from_dir) = match portal.info_from(zid) {
        Ok(info) => info,
        Err(err) => return Err(err),
    };
    let other_zone = match world.get_zone(&ozid) {
        Ok(z) => z,
        Err(err) => return Err(err),
    };
    let oc = match other_zone.get_portal_coords(&pid) {
        Some(c) => c,
        None => return Err(WorldError::UnknownReference),
    };
    proof {
        assert(world.zone_map()[ozid]@.wf());
    }
    Ok(PendingZone { zone_id: ozid, entry: oc, rel, radius: remaining, from_portal: Some(pid), from_dir })
}

/// Whether `in_fov` marks linear index `c`.
pub open spec fn marked(in_fov: Seq<bool>, c: int) -> bool {
    0 <= c < in_fov.len() && in_fov[c]
}

/// Whether the tile at linear index `c` lets sight through; indices outside
/// the zone do.
pub open spec fn clear_at<P: FovItem>(zv: ZoneView<P>, c: int) -> bool {
    if 0 <= c < zv.size * zv.size {
        zv.tiles[c].payload.fov_spec().spec_allow_los()
    } else {
        true
    }
}

/// The cell one step back along the line, and the cell one step back on both
/// axes, are each unseen or opaque.
pub open spec fn corner_spec<P: FovItem>(
    zv: ZoneView<P>,
    in_fov: Seq<bool>,
    x: int,
    y: int,
    dx: int,
    dy: int,
    is_vert: bool,
) -> bool {
    let sz = zv.size as int;
    let zy = if is_vert {
        x + (y - dy) * sz
    } else {
        x - dx + y * sz
    };
    let back_in = if is_vert {
        0 <= x - dx < sz
    } else {
        0 <= y - dy < sz
    };
    let zyx = (x - dx) + (y - dy) * sz;
    (!marked(in_fov, zy) || !clear_at(zv, zy)) && (back_in && (!marked(in_fov, zyx) || !clear_at(
        zv,
        zyx,
    )))
}

/// The check that keeps sight from slipping between two diagonal neighbours:
/// the cell one step back along the line and the cell one step back on both
/// axes must not both be unseen or opaque.
fn corner_blocked<Z, P: FovItem>(
    zone: &Zone<Z, P>,
    in_fov: &Vec<bool>,
    x: i64,
    y: i64,
    dx: i64,
    dy: i64,
    is_vert: bool,
) -> (r: bool)
    requires
        zone@.wf(),
        in_fov@.len() == zone@.size * zone@.size,
        -0x8_0000_0000 <= x <= 0x8_0000_0000,
        -0x8_0000_0000 <= y <= 0x8_0000_0000,
        dx == 1 || dx == -1,
        dy == 1 || dy == -1,
    ensures
        r == corner_spec(zone@, in_fov@, x as int, y as int, dx as int, dy as int, is_vert),
{
    let size = zone.size();
    proof {
        lemma_side_small(size as int);
    }
    let sz = size as i128;
    let sq = (size * size) as i128;
    let xi = x as i128;
    let yi = y as i128;
    let dxi = dx as i128;
    let dyi = dy as i128;
    proof {
        lemma_mul_bounded(yi - dyi, sz as int);
        lemma_mul_bounded(yi as int, sz as int);
    }
    let zy = if is_vert {
        xi + (yi - dyi) * sz
    } else {
        xi - dxi + yi * sz
    };
    let back_in = if is_vert {
        0 <= xi - dxi && xi - dxi < sz
    } else {
        0 <= yi - dyi && yi - dyi < sz
    };
    let zy_trans = if 0 <= zy && zy < sq {
        zone.tile_at_idx(zy as usize).payload.get_fov().allow_los()
    } else {
        true
    };
    let zyx = (xi - dxi) + (yi - dyi) * sz;
    let zyx_trans = if 0 <= zyx && zyx < sq {
        zone.tile_at_idx(zyx as usize).payload.get_fov().allow_los()
    } else {
        true
    };
    (!fov_has(in_fov, zy) || !zy_trans) && (back_in && (!fov_has(in_fov, zyx) || !zyx_trans))
}

/// The geometry of one octant sweep: the sweep's origin `(vx, vy)` (the focus
/// as projected into the zone), the entry tile `(rx, ry)`, the octant's signs,
/// its orientation, the zone's side and the radius left.
#[derive(Clone, Copy)]
pub struct Frame {
    pub vx: i64,
    pub vy: i64,
    pub rx: i64,
    pub ry: i64,
    pub dx: i64,
    pub dy: i64,
    pub is_vert: bool,
    pub sz: i64,
    pub rr: i64,
}

/// `f` describes entry `e`'s zone and the octant being swept.
#[verifier::opaque]
spec fn frame_ok<W, Z, P>(
    world: &World<W, Z, P>,
    zone: &Zone<Z, P>,
    e: PendingZone,
    radius: int,
    f: Frame,
) -> bool {
    &&& world.wf()
    &&& entry_ok(world, e, radius)
    &&& *zone == world.zone_map()[e.zone_id]
    &&& zone@.wf()
    &&& f.sz == zone@.size
    &&& f.sz <= 0x1_0000_0000
    &&& radius <= u32::MAX
    &&& f.rr == e.radius
    &&& f.rx == e.entry.0
    &&& f.ry == e.entry.1
    &&& f.vx == f.rx - e.rel.0
    &&& f.vy == f.ry - e.rel.1
    &&& (f.dx == 1 || f.dx == -1)
    &&& (f.dy == 1 || f.dy == -1)
}

/// The facts about a frame that a line sweep relies on.
spec fn frame_facts<W, Z, P>(
    world: &World<W, Z, P>,
    zone: &Zone<Z, P>,
    e: PendingZone,
    radius: int,
    f: Frame,
) -> bool {
    &&& *zone == world.zone_map()[e.zone_id]
    &&& world.zone_map().contains_key(e.zone_id)
    &&& zone@.id == e.zone_id
    &&& f.sz == zone@.size
    &&& 0 <= f.sz <= 0x1_0000_0000
    &&& f.rr == e.radius
    &&& e.radius <= radius <= u32::MAX
    &&& f.rx == e.entry.0
    &&& f.ry == e.entry.1
    &&& f.vx == f.rx - e.rel.0
    &&& f.vy == f.ry - e.rel.1
    &&& 0 <= f.rx < f.sz
    &&& 0 <= f.ry < f.sz
    &&& abs(e.rel.0 as int) <= radius
    &&& abs(e.rel.1 as int) <= radius
    &&& (e.from_portal.is_none() ==> e.rel == (0i64, 0i64))
    &&& (f.dx == 1 || f.dx == -1)
    &&& (f.dy == 1 || f.dy == -1)
}

proof fn lemma_frame_facts<W, Z, P>(
    world: &World<W, Z, P>,
    zone: &Zone<Z, P>,
    e: PendingZone,
    radius: int,
    f: Frame,
)
    requires
        frame_ok(world, zone, e, radius, f),
    ensures
        frame_facts(world, zone, e, radius, f),
{
    reveal(frame_ok);
}

/// The shadows recorded so far in one octant: obstacle slope intervals, how
/// many of them earlier lines produced, and the lowest slope not yet shaded,
/// `min_num / min_den`.
struct SweepState {
    obstacles: Vec<(u64, u64, u64)>,
    last_count: usize,
    min_num: u64,
    min_den: u64,
}

/// The shadow record stays within the bounds that keep its arithmetic exact.
spec fn state_ok(st: &SweepState, rr: int) -> bool {
    &&& 1 <= st.min_den <= rr + 1
    &&& st.min_num <= st.min_den
    &&& st.last_count <= st.obstacles@.len()
    &&& obstacles_ok(st.obstacles@, 0x2_0000_0000)
}

/// The state of one octant sweep as the model sees it.
pub struct SweepModel {
    pub in_fov: Seq<bool>,
    pub obstacles: Seq<(u64, u64, u64)>,
    pub last_count: int,
    pub min_num: int,
    pub min_den: int,
    pub out: Seq<RelativeCoord>,
    pub children: Seq<PendingZone>,
}

spec fn snap(in_fov: Seq<bool>, st: SweepState, out: Seq<RelativeCoord>, children: Seq<PendingZone>) -> SweepModel {
    SweepModel {
        in_fov,
        obstacles: st.obstacles@,
        last_count: st.last_count as int,
        min_num: st.min_num as int,
        min_den: st.min_den as int,
        out,
        children,
    }
}

/// What looking at cell `(x, y)`, the `pc`-th cell of line `it`, does to the
/// sweep, and whether the cell keeps the sweep going.
#[verifier::opaque]
pub open spec fn cell_model<W, Z, P: FovItem>(
    world: &World<W, Z, P>,
    focus: RelativeCoord,
    e: PendingZone,
    f: Frame,
    x: int,
    y: int,
    it: int,
    pc: int,
    m: SweepModel,
) -> (SweepModel, bool) {
    let zv = world.zone_map()[e.zone_id]@;
    let sz = f.sz as int;
    let n = it + 1;
    let c = x + y * sz;
    let cell_in = 0 <= x < sz && 0 <= y < sz;
    let fov = if cell_in {
        zv.tiles[c].payload.fov_spec()
    } else {
        FovType::Void
    };
    let portal = if cell_in {
        zv.tiles[c].portal_id
    } else {
        None
    };
    let is_void = fov == FovType::Void;
    let occluded = m.last_count > 0 && !marked(m.in_fov, c) && cell_in && (shaded(
        m.obstacles,
        m.last_count,
        pc,
        n,
        fov.spec_allow_los(),
    ) || corner_spec(zv, m.in_fov, x, y, f.dx as int, f.dy as int, f.is_vert));
    let (axis, behind) = match e.from_dir {
        TraversalDirection::North => (y == f.ry && x != f.rx, y > f.ry),
        TraversalDirection::South => (y == f.ry && x != f.rx, y < f.ry),
        TraversalDirection::East => (x == f.rx && y != f.ry, x < f.rx),
        TraversalDirection::West => (x == f.rx && y != f.ry, x > f.rx),
        TraversalDirection::NoDirection => (false, false),
    };
    let visible = if axis {
        true
    } else if behind {
        false
    } else {
        !occluded && !is_void
    };
    if !visible {
        (m, is_void || behind)
    } else {
        let allow_los = !axis && fov.spec_allow_los();
        let found = marked(m.in_fov, c);
        let in_fov = if !axis {
            m.in_fov.update(c, true)
        } else {
            m.in_fov
        };
        let spawn = portal.is_some() && e.from_portal != portal && !found;
        let remaining: u32 = if e.from_portal.is_none() {
            e.radius
        } else {
            (f.rr - it) as u32
        };
        let children = if spawn {
            m.children.push(
                child_spec(
                    world,
                    zv.id,
                    portal.unwrap(),
                    ((x - f.vx) as i64, (y - f.vy) as i64),
                    remaining,
                ),
            )
        } else {
            m.children
        };
        let seen = RelativeCoord {
            zone_id: zv.id,
            lx: x as usize,
            ly: y as usize,
            gx: (focus.gx + (x - f.vx)) as i64,
            gy: (focus.gy + (y - f.vy)) as i64,
        };
        let out = if !axis && !spawn {
            with_tile(m.out, seen)
        } else {
            m.out
        };
        let m2 = SweepModel { in_fov, children, out, ..m };
        if allow_los {
            (m2, true)
        } else if m.min_num * n >= pc * m.min_den {
            (SweepModel { min_num: pc + 1, min_den: n, ..m2 }, true)
        } else {
            (SweepModel { obstacles: m.obstacles.push((pc as u64, (pc + 1) as u64, n as u64)), ..m2 }, true)
        }
    }
}

/// Looks at cell `(x, y)`, the `pc`-th cell of line `iteration`: reports it
/// when seen, queues the zone beyond a portal on it, and records the shadow
/// it casts. Returns whether the cell keeps the sweep going.
#[verifier::rlimit(40)]
fn visit_cell<W, Z, P: FovItem>(
    world: &World<W, Z, P>,
    zone: &Zone<Z, P>,
    focus: &RelativeCoord,
    radius: u32,
    e: &PendingZone,
    f: Frame,
    x: i64,
    y: i64,
    iteration: i64,
    pc: u64,
    in_fov: &mut Vec<bool>,
    st: &mut SweepState,
    out: &mut Vec<RelativeCoord>,
    children: &mut Vec<PendingZone>,
) -> (r: Result<bool, WorldError>)
    requires
        frame_ok(world, zone, *e, radius as int, f),
        1 <= iteration <= f.rr,
        pc <= iteration,
        abs(x - f.vx) <= iteration,
        abs(y - f.vy) <= iteration,
        state_ok(old(st), f.rr as int),
        old(in_fov)@.len() == zone@.size * zone@.size,
        all_reportable(world, *focus, radius as int, old(out)@),
        children_ok(world, *e, radius as int, old(children)@),
        i64::MIN + radius <= focus.gx <= i64::MAX - radius,
        i64::MIN + radius <= focus.gy <= i64::MAX - radius,
        clear_origin(world, *focus, *e) ==> old(st).obstacles@.len() == 0 && old(st).min_num == 0
            && old(st).last_count == 0,
    ensures
        r is Ok,
        state_ok(final(st), f.rr as int),
        final(st).last_count == old(st).last_count,
        final(in_fov)@.len() == old(in_fov)@.len(),
        all_reportable(world, *focus, radius as int, final(out)@),
        keeps(old(out)@, final(out)@),
        children_ok(world, *e, radius as int, final(children)@),
        match r {
            Ok(k) => (snap(final(in_fov)@, *final(st), final(out)@, final(children)@), k)
                == cell_model(
                world,
                *focus,
                *e,
                f,
                x as int,
                y as int,
                iteration as int,
                pc as int,
                snap(old(in_fov)@, *old(st), old(out)@, old(children)@),
            ),
            Err(_) => true,
        },
        prefix_kept(old(children)@, final(children)@),
        from_focus(*focus, *e) ==> (framed(*focus, old(out)@) ==> framed(*focus, final(out)@)),
        plain_origin(world, *focus, *e) ==> final(children)@ == old(children)@,
        clear_origin(world, *focus, *e) ==> {
            &&& r == Ok::<bool, WorldError>(true)
            &&& final(st).obstacles@.len() == 0
            &&& final(st).min_num == 0
            &&& (0 <= x < f.sz && 0 <= y < f.sz ==> final(out)@.contains(
                placed(*focus, x as int, y as int),
            ))
        },
{
    reveal(all_reportable);
    reveal(children_ok);
    reveal(cell_model);
    reveal(frame_ok);
    reveal(prefix_kept);
    let ghost zv = zone@;
    let n: u64 = (iteration + 1) as u64;
    let zid = zone.id();
    let sz = f.sz;
    let rx = f.rx;
    let ry = f.ry;
    proof {
        lemma_mul_bounded(y as int, sz as int);
    }
    let c: i128 = x as i128 + (y as i128) * (sz as i128);
    let cell_in: bool = 0 <= x && x < sz && 0 <= y && y < sz;
    let mut fov = FovType::Void;
    let mut portal: Option<u128> = None;
    if cell_in {
        proof {
            lemma_idx_in_square(x as int, y as int, sz as int);
        }
        let t = zone.tile_at_idx(c as usize);
        fov = t.payload.get_fov();
        portal = t.portal_id;
        proof {
            if clear_origin(world, *focus, *e) {
                assert(zv.tiles[c as int].payload.fov_spec() == FovType::Transparent);
            }
            if plain_origin(world, *focus, *e) {
                assert(zv.tiles[c as int].portal_id.is_none());
            }
        }
    }
    let is_void = match fov {
        FovType::Void => true,
        _ => false,
    };
    let mut keep_going = false;
    let mut allow_los = fov.allow_los();
    let mut visible = true;
    if st.last_count > 0 && !fov_has(in_fov, c) && cell_in {
        if slope_occluded(&st.obstacles, st.last_count, pc, n, allow_los) {
            visible = false;
        } else if corner_blocked(zone, in_fov, x, y, f.dx, f.dy, f.is_vert) {
            visible = false;
        }
    }
    if is_void {
        visible = false;
        keep_going = true;
    }
    // After entering through a portal, the row or column of the entry tile
    // walls off the half-plane behind the portal.
    let mut non_blocking_axis = true;
    match e.from_dir {
        TraversalDirection::North => {
            if y == ry && x != rx {
                non_blocking_axis = false;
                visible = true;
                allow_los = false;
            } else if y > ry {
                visible = false;
                keep_going = true;
            }
        },
        TraversalDirection::South => {
            if y == ry && x != rx {
                non_blocking_axis = false;
                visible = true;
                allow_los = false;
            } else if y < ry {
                visible = false;
                keep_going = true;
            }
        },
        TraversalDirection::East => {
            if x == rx && y != ry {
                non_blocking_axis = false;
                visible = true;
                allow_los = false;
            } else if x < rx {
                visible = false;
                keep_going = true;
            }
        },
        TraversalDirection::West => {
            if x == rx && y != ry {
                non_blocking_axis = false;
                visible = true;
                allow_los = false;
            } else if x > rx {
                visible = false;
                keep_going = true;
            }
        },
        TraversalDirection::NoDirection => {},
    }
    proof {
        lemma_keeps_refl(out@);
    }
    if !visible {
        return Ok(keep_going);
    }
    let ox: i64 = x - f.vx;
    let oy: i64 = y - f.vy;
    let gx: i64 = focus.gx + ox;
    let gy: i64 = focus.gy + oy;
    let found_already = fov_has(in_fov, c);
    if non_blocking_axis {
        assert(cell_in);
        proof {
            lemma_idx_in_square(x as int, y as int, sz as int);
        }
        in_fov.set(c as usize, true);
    }
    let mut add_this_tile = true;
    if let Some(pid) = portal {
        let fresh = match e.from_portal {
            Some(fp) => fp != pid,
            None => true,
        };
        if fresh && !found_already {
            proof {
                lemma_idx_in_square(x as int, y as int, sz as int);
                assert(zv.tiles[c as int].portal_id == Some(pid));
            }
            let remaining: u32 = if e.from_portal.is_none() {
                e.radius
            } else {
                (f.rr - iteration) as u32
            };
            match build_pending_zone_entry(world, zid, pid, (ox, oy), remaining) {
                Ok(child) => children.push(child),
                Err(err) => return Err(err),
            }
            add_this_tile = false;
        }
    }
    if non_blocking_axis && add_this_tile {
        let seen = RelativeCoord { zone_id: zid, lx: x as usize, ly: y as usize, gx, gy };
        assert(zv.tile_at((x as usize, y as usize)) == zv.tiles[c as int]);
        assert(reportable(world, *focus, radius as int, seen));
        let ghost before = out@;
        push_unique(out, seen);
        proof {
            if from_focus(*focus, *e) {
                assert(seen == placed(*focus, x as int, y as int));
                if framed(*focus, before) {
                    lemma_framed_push(*focus, before, out@, seen);
                }
            }
            reveal(keeps);
            assert forall|q: RelativeCoord| before.contains(q) implies out@.contains(q) by {
                if out@ != before {
                    let j = choose|j: int| 0 <= j < before.len() && before[j] == q;
                    assert(out@[j] == q);
                }
            }
        }
    }
    if !allow_los {
        proof {
            lemma_mul_bounded(st.min_num as int, n as int);
            lemma_mul_bounded(pc as int, st.min_den as int);
        }
        if (st.min_num as u128) * (n as u128) >= (pc as u128) * (st.min_den as u128) {
            st.min_num = pc + 1;
            st.min_den = n;
        } else {
            st.obstacles.push((pc, pc + 1, n));
        }
    }
    Ok(true)
}

/// The first cell of a line of `n` slope steps that lies at or above the
/// lowest unshaded slope `num / den`: `floor(num * n / den)`.
fn first_unshaded(num: u64, den: u64, n: u64) -> (r: u64)
    requires
        1 <= den,
        num <= den,
        den <= 0x2_0000_0000,
        n <= 0x2_0000_0000,
    ensures
        r <= n,
        r == (num * n) / (den as int),
{
    proof {
        lemma_floor_scaled(num as int, den as int, n as int);
        lemma_mul_bounded(num as int, n as int);
    }
    ((num as u128 * n as u128) / den as u128) as u64
}

/// The rest of line `it` of an octant, at coordinate `line` across the
/// sweep, from its `pc`-th cell on; `keep` tells whether a cell so far kept
/// the sweep going.
pub open spec fn line_rest<W, Z, P: FovItem>(
    world: &World<W, Z, P>,
    focus: RelativeCoord,
    e: PendingZone,
    f: Frame,
    it: int,
    line: int,
    mini: int,
    maxi: int,
    pc: int,
    m: SweepModel,
    keep: bool,
) -> (SweepModel, bool)
    decreases (if (if f.is_vert {
        f.dx
    } else {
        f.dy
    }) > 0 {
        maxi + 1 - ((if f.is_vert {
            f.vx
        } else {
            f.vy
        }) + pc)
    } else {
        ((if f.is_vert {
            f.vx
        } else {
            f.vy
        }) - pc) + 1 - mini
    }),
{
    let cd = if f.is_vert {
        f.dx
    } else {
        f.dy
    };
    let cp = if f.is_vert {
        f.vx
    } else {
        f.vy
    };
    let cell = if cd > 0 {
        cp + pc
    } else {
        cp - pc
    };
    if mini <= cell <= maxi {
        let x = if f.is_vert {
            cell
        } else {
            line
        };
        let y = if f.is_vert {
            line
        } else {
            cell
        };
        let (m2, k) = cell_model(world, focus, e, f, x, y, it, pc, m);
        line_rest(world, focus, e, f, it, line, mini, maxi, pc + 1, m2, keep || k)
    } else {
        (m, keep)
    }
}

/// What sweeping line `it` of an octant does, and whether it keeps the sweep going.
#[verifier::opaque]
pub open spec fn line_model<W, Z, P: FovItem>(
    world: &World<W, Z, P>,
    focus: RelativeCoord,
    e: PendingZone,
    f: Frame,
    it: int,
    line: int,
    m: SweepModel,
) -> (SweepModel, bool) {
    let pad = if f.sz > f.rr {
        f.sz as int
    } else {
        f.rr as int
    };
    let cp = if f.is_vert {
        f.vx as int
    } else {
        f.vy as int
    };
    let mini = if -pad > cp - it {
        -pad
    } else {
        cp - it
    };
    let maxi = if f.sz + pad - 1 < cp + it {
        f.sz + pad - 1
    } else {
        cp + it
    };
    line_rest(world, focus, e, f, it, line, mini, maxi, (m.min_num * (it + 1)) / m.min_den, m, false)
}

/// The rest of an octant sweep from line `it`, at coordinate `line`.
pub open spec fn octant_rest<W, Z, P: FovItem>(
    world: &World<W, Z, P>,
    focus: RelativeCoord,
    e: PendingZone,
    f: Frame,
    it: int,
    line: int,
    done: bool,
    m: SweepModel,
) -> SweepModel
    decreases f.rr + 1 - it,
{
    if done || it > f.rr || it < 1 {
        m
    } else {
        let pad = if f.sz > f.rr {
            f.sz as int
        } else {
            f.rr as int
        };
        let (m2, k) = line_model(world, focus, e, f, it, line, m);
        let next = line + (if f.is_vert {
            f.dy
        } else {
            f.dx
        });
        let done2 = !k || it == f.rr || next < -pad || next >= f.sz + pad || m2.min_num == m2.min_den;
        octant_rest(
            world,
            focus,
            e,
            f,
            it + 1,
            next,
            done2,
            SweepModel { last_count: m2.obstacles.len() as int, ..m2 },
        )
    }
}

/// The geometry of the octant with signs `dn` of entry `e` into a zone of side `size`.
pub open spec fn frame_of(size: int, e: PendingZone, dn: (i64, i64), is_vert: bool) -> Frame {
    Frame {
        vx: (e.entry.0 - e.rel.0) as i64,
        vy: (e.entry.1 - e.rel.1) as i64,
        rx: e.entry.0 as i64,
        ry: e.entry.1 as i64,
        dx: dn.0,
        dy: dn.1,
        is_vert,
        sz: size as i64,
        rr: e.radius as i64,
    }
}

/// What sweeping one octant of entry `e` does to the marks, the reported
/// tiles and the queued entries.
pub open spec fn octant_model<W, Z, P: FovItem>(
    world: &World<W, Z, P>,
    focus: RelativeCoord,
    e: PendingZone,
    dn: (i64, i64),
    is_vert: bool,
    in_fov: Seq<bool>,
    out: Seq<RelativeCoord>,
    children: Seq<PendingZone>,
) -> SweepModel {
    let f = frame_of(world.zone_map()[e.zone_id]@.size as int, e, dn, is_vert);
    let pad = if f.sz > f.rr {
        f.sz as int
    } else {
        f.rr as int
    };
    let line = (if is_vert {
        f.vy
    } else {
        f.vx
    }) + (if is_vert {
        f.dy
    } else {
        f.dx
    });
    let done = f.rr == 0 || line < -pad || line >= f.sz + pad;
    octant_rest(
        world,
        focus,
        e,
        f,
        1,
        line,
        done,
        SweepModel {
            in_fov,
            obstacles: Seq::empty(),
            last_count: 0,
            min_num: 0,
            min_den: 1,
            out,
            children,
        },
    )
}

proof fn lemma_with_tile(s: Seq<RelativeCoord>, c: RelativeCoord)
    ensures
        with_tile(s, c).contains(c),
        keeps(s, with_tile(s, c)),
{
    reveal(keeps);
    if !s.contains(c) {
        assert(with_tile(s, c).last() == c);
        assert forall|q: RelativeCoord| s.contains(q) implies with_tile(s, c).contains(q) by {
            let j = choose|j: int| 0 <= j < s.len() && s[j] == q;
            assert(with_tile(s, c)[j] == q);
        }
    }
}

/// Looking at a cell never takes a reported tile away.
proof fn lemma_cell_model_keeps<W, Z, P: FovItem>(
    world: &World<W, Z, P>,
    focus: RelativeCoord,
    e: PendingZone,
    f: Frame,
    x: int,
    y: int,
    it: int,
    pc: int,
    m: SweepModel,
)
    ensures
        keeps(m.out, cell_model(world, focus, e, f, x, y, it, pc, m).0.out),
{
    reveal(cell_model);
    lemma_keeps_refl(m.out);
    let zv = world.zone_map()[e.zone_id]@;
    lemma_with_tile(
        m.out,
        RelativeCoord {
            zone_id: zv.id,
            lx: x as usize,
            ly: y as usize,
            gx: (focus.gx + (x - f.vx)) as i64,
            gy: (focus.gy + (y - f.vy)) as i64,
        },
    );
}

/// On a line without shadows yet, an open cell is reported.
proof fn lemma_cell_model_reports<W, Z, P: FovItem>(
    world: &World<W, Z, P>,
    focus: RelativeCoord,
    e: PendingZone,
    f: Frame,
    x: int,
    y: int,
    it: int,
    pc: int,
    m: SweepModel,
)
    requires
        m.last_count == 0,
        open_cell(world, e, x, y),
        f.rx == e.entry.0,
        f.ry == e.entry.1,
        f.sz == world.zone_map()[e.zone_id]@.size,
        world.zone_map()[e.zone_id]@.id == e.zone_id,
    ensures
        cell_model(world, focus, e, f, x, y, it, pc, m).0.out.contains(
            seen_tile(focus, e.zone_id, f.vx as int, f.vy as int, x, y),
        ),
{
    reveal(cell_model);
    lemma_with_tile(m.out, seen_tile(focus, e.zone_id, f.vx as int, f.vy as int, x, y));
}

/// The rest of a line never takes a reported tile away.
proof fn lemma_line_rest_keeps<W, Z, P: FovItem>(
    world: &World<W, Z, P>,
    focus: RelativeCoord,
    e: PendingZone,
    f: Frame,
    it: int,
    line: int,
    mini: int,
    maxi: int,
    pc: int,
    m: SweepModel,
    keep: bool,
)
    ensures
        keeps(m.out, line_rest(world, focus, e, f, it, line, mini, maxi, pc, m, keep).0.out),
    decreases (if (if f.is_vert {
        f.dx
    } else {
        f.dy
    }) > 0 {
        maxi + 1 - ((if f.is_vert {
            f.vx
        } else {
            f.vy
        }) + pc)
    } else {
        ((if f.is_vert {
            f.vx
        } else {
            f.vy
        }) - pc) + 1 - mini
    }),
{
    let cd = if f.is_vert {
        f.dx
    } else {
        f.dy
    };
    let cp = if f.is_vert {
        f.vx
    } else {
        f.vy
    };
    let cell = if cd > 0 {
        cp + pc
    } else {
        cp - pc
    };
    if mini <= cell <= maxi {
        let x = if f.is_vert {
            cell
        } else {
            line
        };
        let y = if f.is_vert {
            line
        } else {
            cell
        };
        let (m2, k) = cell_model(world, focus, e, f, x, y, it, pc, m);
        lemma_cell_model_keeps(world, focus, e, f, x, y, it, pc, m);
        lemma_line_rest_keeps(world, focus, e, f, it, line, mini, maxi, pc + 1, m2, keep || k);
        lemma_keeps_trans(
            m.out,
            m2.out,
            line_rest(world, focus, e, f, it, line, mini, maxi, pc + 1, m2, keep || k).0.out,
        );
    } else {
        lemma_keeps_refl(m.out);
    }
}

/// On a line without shadows, the cell straight ahead of the sweep's origin
/// is reported when it is open.
proof fn lemma_line_first_cell<W, Z, P: FovItem>(
    world: &World<W, Z, P>,
    focus: RelativeCoord,
    e: PendingZone,
    f: Frame,
    it: int,
    line: int,
    m: SweepModel,
)
    requires
        m.last_count == 0,
        m.min_num == 0,
        m.min_den >= 1,
        it >= 1,
        f.rx == e.entry.0,
        f.ry == e.entry.1,
        0 <= f.sz,
        0 <= f.rr,
        f.sz == world.zone_map()[e.zone_id]@.size,
        world.zone_map()[e.zone_id]@.id == e.zone_id,
        open_cell(
            world,
            e,
            if f.is_vert {
                f.vx as int
            } else {
                line
            },
            if f.is_vert {
                line
            } else {
                f.vy as int
            },
        ),
    ensures
        line_model(world, focus, e, f, it, line, m).0.out.contains(
            seen_tile(
                focus,
                e.zone_id,
                f.vx as int,
                f.vy as int,
                if f.is_vert {
                    f.vx as int
                } else {
                    line
                },
                if f.is_vert {
                    line
                } else {
                    f.vy as int
                },
            ),
        ),
{
    reveal(line_model);
    let x = if f.is_vert {
        f.vx as int
    } else {
        line
    };
    let y = if f.is_vert {
        line
    } else {
        f.vy as int
    };
    let pad = if f.sz > f.rr {
        f.sz as int
    } else {
        f.rr as int
    };
    let cp = if f.is_vert {
        f.vx as int
    } else {
        f.vy as int
    };
    let mini = if -pad > cp - it {
        -pad
    } else {
        cp - it
    };
    let maxi = if f.sz + pad - 1 < cp + it {
        f.sz + pad - 1
    } else {
        cp + it
    };
    assert((m.min_num * (it + 1)) / m.min_den == 0) by (nonlinear_arith)
        requires
            m.min_num == 0,
            m.min_den >= 1,
    ;
    let (m2, k) = cell_model(world, focus, e, f, x, y, it, 0, m);
    lemma_cell_model_reports(world, focus, e, f, x, y, it, 0, m);
    lemma_line_rest_keeps(world, focus, e, f, it, line, mini, maxi, 1, m2, false || k);
    reveal(keeps);
}

/// Sweeps line `iteration` of an octant, at coordinate `line` across the
/// sweep. Returns whether any of its cells keeps the sweep going.
#[verifier::loop_isolation(false)]
#[verifier::spinoff_prover]
#[verifier::rlimit(100)]
fn sweep_line<W, Z, P: FovItem>(
    world: &World<W, Z, P>,
    zone: &Zone<Z, P>,
    focus: &RelativeCoord,
    radius: u32,
    e: &PendingZone,
    f: Frame,
    iteration: i64,
    line: i64,
    in_fov: &mut Vec<bool>,
    st: &mut SweepState,
    out: &mut Vec<RelativeCoord>,
    children: &mut Vec<PendingZone>,
) -> (r: Result<bool, WorldError>)
    requires
        frame_ok(world, zone, *e, radius as int, f),
        1 <= iteration <= f.rr,
        line == (if f.is_vert {
            f.vy
        } else {
            f.vx
        }) + (if (if f.is_vert {
            f.dy
        } else {
            f.dx
        }) == 1 {
            iteration as int
        } else {
            -iteration
        }),
        state_ok(old(st), f.rr as int),
        old(in_fov)@.len() == zone@.size * zone@.size,
        all_reportable(world, *focus, radius as int, old(out)@),
        children_ok(world, *e, radius as int, old(children)@),
        i64::MIN + radius <= focus.gx <= i64::MAX - radius,
        i64::MIN + radius <= focus.gy <= i64::MAX - radius,
        clear_origin(world, *focus, *e) ==> old(st).obstacles@.len() == 0 && old(st).min_num == 0
            && old(st).last_count == 0,
        clear_origin(world, *focus, *e) ==> covered(
            *focus,
            zone@.size as int,
            old(out)@,
            f.dx,
            f.dy,
            f.is_vert,
            iteration - 1,
            0,
        ),
    ensures
        r is Ok,
        state_ok(final(st), f.rr as int),
        final(st).last_count == old(st).last_count,
        final(in_fov)@.len() == old(in_fov)@.len(),
        all_reportable(world, *focus, radius as int, final(out)@),
        keeps(old(out)@, final(out)@),
        children_ok(world, *e, radius as int, final(children)@),
        match r {
            Ok(k) => (snap(final(in_fov)@, *final(st), final(out)@, final(children)@), k) == line_model(
                world,
                *focus,
                *e,
                f,
                iteration as int,
                line as int,
                snap(old(in_fov)@, *old(st), old(out)@, old(children)@),
            ),
            Err(_) => true,
        },
        prefix_kept(old(children)@, final(children)@),
        from_focus(*focus, *e) ==> (framed(*focus, old(out)@) ==> framed(*focus, final(out)@)),
        plain_origin(world, *focus, *e) ==> final(children)@ == old(children)@,
        clear_origin(world, *focus, *e) ==> {
            &&& r == Ok::<bool, WorldError>(true)
            &&& final(st).obstacles@.len() == 0
            &&& final(st).min_num == 0
            &&& covered(*focus, zone@.size as int, final(out)@, f.dx, f.dy, f.is_vert, iteration as int, 0)
        },
{
    reveal(line_model);
    proof {
        lemma_frame_facts(world, zone, *e, radius as int, f);
    }
    let ghost clear = clear_origin(world, *focus, *e);
    let ghost origin = from_focus(*focus, *e);
    let ghost plain = plain_origin(world, *focus, *e);
    let ghost size = zone@.size as int;
    let sz = f.sz;
    let rr = f.rr;
    let pad: i64 = if sz > rr {
        sz
    } else {
        rr
    };
    let (cp, cd) = if f.is_vert {
        (f.vx, f.dx)
    } else {
        (f.vy, f.dy)
    };
    let n: u64 = (iteration + 1) as u64;
    let mut pc: u64 = first_unshaded(st.min_num, st.min_den, n);
    proof {
        lemma_keeps_refl(out@);
        lemma_prefix_refl(children@);
        if clear {
            let m = st.min_num as int;
            assert(m * n as int == 0) by (nonlinear_arith)
                requires
                    m == 0,
            ;
            assert(pc == 0);
        }
    }
    let mut keep_going = false;
    let ghost start = snap(in_fov@, *st, out@, children@);
    let ghost pc0 = pc as int;
    let mini: i64 = if -pad > cp - iteration {
        -pad
    } else {
        cp - iteration
    };
    let maxi: i64 = if sz + pad - 1 < cp + iteration {
        sz + pad - 1
    } else {
        cp + iteration
    };
    let mut cell: i64 = if cd > 0 {
        cp + pc as i64
    } else {
        cp - pc as i64
    };
    while cell >= mini && cell <= maxi
        invariant
            in_fov@.len() == zone@.size * zone@.size,
            pc <= n,
            cd == 1 ==> cell == cp + pc,
            cd == -1 ==> cell == cp - pc,
            state_ok(st, rr as int),
            st.last_count == old(st).last_count,
            all_reportable(world, *focus, radius as int, out@),
            keeps(old(out)@, out@),
            children_ok(world, *e, radius as int, children@),
            clear ==> st.obstacles@.len() == 0 && st.min_num == 0 && st.last_count == 0,
            plain ==> children@ == old(children)@,
            clear ==> covered(*focus, size, out@, f.dx, f.dy, f.is_vert, iteration - 1, pc as int),
            origin ==> (framed(*focus, old(out)@) ==> framed(*focus, out@)),
            clear ==> (pc > 0 ==> keep_going),
            prefix_kept(old(children)@, children@),
            line_rest(
                world,
                *focus,
                *e,
                f,
                iteration as int,
                line as int,
                mini as int,
                maxi as int,
                pc as int,
                snap(in_fov@, *st, out@, children@),
                keep_going,
            ) == line_rest(
                world,
                *focus,
                *e,
                f,
                iteration as int,
                line as int,
                mini as int,
                maxi as int,
                pc0,
                start,
                false,
            ),
        decreases (if cd > 0 {
            maxi + 1 - cell
        } else {
            cell + 1 - mini
        }),
    {
        let x: i64 = if f.is_vert {
            cell
        } else {
            line
        };
        let y: i64 = if f.is_vert {
            line
        } else {
            cell
        };
        let ghost before = out@;
        let ghost before_children = children@;
        let r = visit_cell(
            world,
            zone,
            focus,
            radius,
            e,
            f,
            x,
            y,
            iteration,
            pc,
            in_fov,
            st,
            out,
            children,
        );
        proof {
            lemma_keeps_trans(old(out)@, before, out@);
            lemma_prefix_trans(old(children)@, before_children, children@);
            if clear {
                lemma_covered_keeps(
                    *focus,
                    size,
                    before,
                    out@,
                    f.dx,
                    f.dy,
                    f.is_vert,
                    iteration - 1,
                    pc as int,
                );
                reveal(covered);
                assert(octant_cell(*focus, f.dx, f.dy, f.is_vert, iteration as int, pc as int) == (
                x as int, y as int));
                assert forall|it: int, p: int|
                    1 <= it && 0 <= p <= it && (it <= iteration - 1 || (it == iteration && p < pc
                        + 1)) implies {
                    let c = #[trigger] octant_cell(*focus, f.dx, f.dy, f.is_vert, it, p);
                    0 <= c.0 < size && 0 <= c.1 < size ==> out@.contains(placed(*focus, c.0, c.1))
                } by {}
            }
        }
        match r {
            Ok(k) => {
                if k {
                    keep_going = true;
                }
            },
            Err(err) => return Err(err),
        }
        pc = pc + 1;
        cell = cell + cd;
    }
    proof {
        if clear {
            reveal(covered);
            assert forall|it: int, p: int|
                1 <= it && 0 <= p <= it && (it <= iteration || (it == iteration + 1 && p < 0)) implies {
                let c = #[trigger] octant_cell(*focus, f.dx, f.dy, f.is_vert, it, p);
                0 <= c.0 < size && 0 <= c.1 < size ==> out@.contains(placed(*focus, c.0, c.1))
            } by {
                if it == iteration {
                    assert(p < pc);
                }
            }
        }
    }
    Ok(keep_going)
}

/// Sweeps one octant of entry `e`'s zone, line by line away from the sweep's
/// origin, reporting the tiles it sees and queueing the zones beyond the
/// portals it sees.
#[verifier::loop_isolation(false)]
#[verifier::rlimit(40)]
fn compute_octant<W, Z, P: FovItem>(
    world: &World<W, Z, P>,
    zone: &Zone<Z, P>,
    focus: &RelativeCoord,
    radius: u32,
    e: &PendingZone,
    in_fov: &mut Vec<bool>,
    dn: (i64, i64),
    is_vert: bool,
    out: &mut Vec<RelativeCoord>,
    children: &mut Vec<PendingZone>,
) -> (r: Result<(), WorldError>)
    requires
        world.wf(),
        entry_ok(world, *e, radius as int),
        *zone == world.zone_map()[e.zone_id],
        old(in_fov)@.len() == zone@.size * zone@.size,
        all_reportable(world, *focus, radius as int, old(out)@),
        children_ok(world, *e, radius as int, old(children)@),
        dn.0 == 1 || dn.0 == -1,
        dn.1 == 1 || dn.1 == -1,
        i64::MIN + radius <= focus.gx <= i64::MAX - radius,
        i64::MIN + radius <= focus.gy <= i64::MAX - radius,
    ensures
        r is Ok,
        final(in_fov)@.len() == old(in_fov)@.len(),
        all_reportable(world, *focus, radius as int, final(out)@),
        keeps(old(out)@, final(out)@),
        children_ok(world, *e, radius as int, final(children)@),
        ({
            let m = octant_model(world, *focus, *e, dn, is_vert, old(in_fov)@, old(out)@, old(children)@);
            &&& final(in_fov)@ == m.in_fov
            &&& final(out)@ == m.out
            &&& final(children)@ == m.children
        }),
        ({
            let f = frame_of(zone@.size as int, *e, dn, is_vert);
            let x0 = if is_vert {
                f.vx as int
            } else {
                f.vx + f.dx
            };
            let y0 = if is_vert {
                f.vy + f.dy
            } else {
                f.vy as int
            };
            e.radius >= 1 && open_cell(world, *e, x0, y0) ==> final(out)@.contains(
                seen_tile(*focus, e.zone_id, f.vx as int, f.vy as int, x0, y0),
            )
        }),
        prefix_kept(old(children)@, final(children)@),
        from_focus(*focus, *e) ==> (framed(*focus, old(out)@) ==> framed(*focus, final(out)@)),
        plain_origin(world, *focus, *e) ==> final(children)@ == old(children)@,
        clear_origin(world, *focus, *e) ==> covered(
            *focus,
            zone@.size as int,
            final(out)@,
            dn.0,
            dn.1,
            is_vert,
            e.radius as int,
            0,
        ),
{
    proof {
        assert(zone@.wf());
        lemma_side_small(zone@.size as int);
    }
    let sz: i64 = zone.size() as i64;
    let rr: i64 = e.radius as i64;
    let pad: i64 = if sz > rr {
        sz
    } else {
        rr
    };
    let rx: i64 = e.entry.0 as i64;
    let ry: i64 = e.entry.1 as i64;
    // The sweep starts from the focus as projected into this zone's frame.
    let f = Frame {
        vx: rx - e.rel.0,
        vy: ry - e.rel.1,
        rx,
        ry,
        dx: dn.0,
        dy: dn.1,
        is_vert,
        sz,
        rr,
    };
    let (lp, ld) = if is_vert {
        (f.vy, f.dy)
    } else {
        (f.vx, f.dx)
    };
    let mut iteration: i64 = 1;
    let mut line: i64 = lp + ld;
    let mut done: bool = rr == 0 || line < -pad || line >= sz + pad;
    let mut st = SweepState { obstacles: Vec::new(), last_count: 0, min_num: 0, min_den: 1 };
    assert(frame_ok(world, zone, *e, radius as int, f)) by {
        reveal(frame_ok);
    }
    let ghost model = octant_model(world, *focus, *e, dn, is_vert, in_fov@, out@, children@);
    proof {
        assert(f == frame_of(zone@.size as int, *e, dn, is_vert));
        assert(st.obstacles@ =~= Seq::<(u64, u64, u64)>::empty());
        assert(octant_rest(world, *focus, *e, f, 1, line as int, done, snap(in_fov@, st, out@, children@))
            == model);
    }
    let ghost clear = clear_origin(world, *focus, *e);
    let ghost origin = from_focus(*focus, *e);
    let ghost plain = plain_origin(world, *focus, *e);
    let ghost size = zone@.size as int;
    let ghost x0: int = if is_vert {
        f.vx as int
    } else {
        f.vx + f.dx
    };
    let ghost y0: int = if is_vert {
        f.vy + f.dy
    } else {
        f.vy as int
    };
    let ghost target = seen_tile(*focus, e.zone_id, f.vx as int, f.vy as int, x0, y0);
    let ghost first_ok = e.radius >= 1 && open_cell(world, *e, x0, y0);
    proof {
        lemma_keeps_refl(out@);
        lemma_prefix_refl(children@);
        assert(world.zone_map()[e.zone_id]@.id == e.zone_id);
        reveal(covered);
        assert(covered(*focus, size, out@, dn.0, dn.1, is_vert, 0, 0));
    }
    while !done
        invariant
            in_fov@.len() == zone@.size * zone@.size,
            1 <= iteration <= rr + 1,
            !done ==> iteration <= rr,
            ld == 1 ==> line == lp + iteration,
            ld == -1 ==> line == lp - iteration,
            state_ok(&st, rr as int),
            all_reportable(world, *focus, radius as int, out@),
            keeps(old(out)@, out@),
            children_ok(world, *e, radius as int, children@),
            clear ==> st.obstacles@.len() == 0 && st.min_num == 0 && st.last_count == 0,
            plain ==> children@ == old(children)@,
            clear ==> covered(*focus, size, out@, dn.0, dn.1, is_vert, iteration - 1, 0),
            origin ==> (framed(*focus, old(out)@) ==> framed(*focus, out@)),
            clear && done ==> iteration == rr + 1,
            first_ok ==> (iteration == 1 ==> !done),
            iteration == 1 ==> st.last_count == 0 && st.min_num == 0 && st.min_den == 1,
            first_ok && iteration > 1 ==> out@.contains(target),
            prefix_kept(old(children)@, children@),
            octant_rest(
                world,
                *focus,
                *e,
                f,
                iteration as int,
                line as int,
                done,
                snap(in_fov@, st, out@, children@),
            ) == model,
        decreases rr + 1 - iteration,
    {
        let ghost before = out@;
        let ghost m_before = snap(in_fov@, st, out@, children@);
        let ghost before_children = children@;
        let ghost line_before = line as int;
        let r = sweep_line(
            world,
            zone,
            focus,
            radius,
            e,
            f,
            iteration,
            line,
            in_fov,
            &mut st,
            out,
            children,
        );
        proof {
            lemma_keeps_trans(old(out)@, before, out@);
            lemma_prefix_trans(old(children)@, before_children, children@);
            if first_ok {
                if iteration == 1 {
                    lemma_line_first_cell(world, *focus, *e, f, 1, line_before, m_before);
                } else {
                    reveal(keeps);
                }
            }
        }
        match r {
            Ok(keep_going) => {
                done = !keep_going;
            },
            Err(err) => return Err(err),
        }
        if iteration == rr {
            done = true;
        }
        iteration = iteration + 1;
        st.last_count = st.obstacles.len();
        line = line + ld;
        if line < -pad || line >= sz + pad {
            done = true;
        }
        if st.min_num == st.min_den {
            done = true;
        }
        proof {
            let (m2, k) = line_model(world, *focus, *e, f, iteration - 1, line_before, m_before);
            assert(snap(in_fov@, st, out@, children@) == SweepModel {
                last_count: m2.obstacles.len() as int,
                ..m2
            });
        }
    }
    Ok(())
}


/// The horizontal sign of octant `o`, counting as the sweep does.
pub open spec fn oct_dx(o: int) -> i64 {
    if o < 4 {
        1i64
    } else {
        -1i64
    }
}

/// The vertical sign of octant `o`.
pub open spec fn oct_dy(o: int) -> i64 {
    if o % 4 < 2 {
        1i64
    } else {
        -1i64
    }
}

/// Whether octant `o` sweeps rows (lines across the vertical axis).
pub open spec fn oct_vert(o: int) -> bool {
    o % 2 == 0
}

/// Together the eight octants reach every tile of the square but the focus.
proof fn lemma_octants_cover(
    focus: RelativeCoord,
    size: int,
    radius: int,
    s: Seq<RelativeCoord>,
    x: int,
    y: int,
)
    requires
        forall|o: int|
            0 <= o < 8 ==> #[trigger] covered(focus, size, s, oct_dx(o), oct_dy(o), oct_vert(o), radius, 0),
        0 <= x < size,
        0 <= y < size,
        abs(x - focus.lx) <= radius,
        abs(y - focus.ly) <= radius,
        x != focus.lx || y != focus.ly,
    ensures
        s.contains(placed(focus, x, y)),
{
    let ox = x - focus.lx;
    let oy = y - focus.ly;
    let vert = abs(oy) >= abs(ox);
    let dx: i64 = if ox >= 0 {
        1i64
    } else {
        -1i64
    };
    let dy: i64 = if oy >= 0 {
        1i64
    } else {
        -1i64
    };
    let o: int = (if dx == 1 {
        0int
    } else {
        4int
    }) + (if dy == 1 {
        0int
    } else {
        2int
    }) + (if vert {
        0int
    } else {
        1int
    });
    assert(covered(focus, size, s, oct_dx(o), oct_dy(o), oct_vert(o), radius, 0));
    assert(oct_dx(o) == dx && oct_dy(o) == dy && oct_vert(o) == vert);
    reveal(covered);
    let it = if vert {
        abs(oy)
    } else {
        abs(ox)
    };
    let p = if vert {
        abs(ox)
    } else {
        abs(oy)
    };
    assert(octant_cell(focus, dx, dy, vert, it, p) == (x, y));
}

/// Octant `(dx, dy)` faces away from a portal entered in `from_dir`.
pub open spec fn selected_spec(from_dir: TraversalDirection, dx: i64, dy: i64) -> bool {
    match from_dir {
        TraversalDirection::NoDirection => true,
        TraversalDirection::North => dy == -1,
        TraversalDirection::South => dy == 1,
        TraversalDirection::East => dx == 1,
        TraversalDirection::West => dx == -1,
    }
}

/// Sweeps octants `o..8` of entry `e` that face away from its portal.
pub open spec fn octants_rest<W, Z, P: FovItem>(
    world: &World<W, Z, P>,
    focus: RelativeCoord,
    e: PendingZone,
    o: int,
    in_fov: Seq<bool>,
    out: Seq<RelativeCoord>,
    children: Seq<PendingZone>,
) -> (Seq<bool>, Seq<RelativeCoord>, Seq<PendingZone>)
    decreases 8 - o,
{
    if o < 0 || o >= 8 {
        (in_fov, out, children)
    } else if selected_spec(e.from_dir, oct_dx(o), oct_dy(o)) {
        let m = octant_model(world, focus, e, (oct_dx(o), oct_dy(o)), oct_vert(o), in_fov, out, children);
        octants_rest(world, focus, e, o + 1, m.in_fov, m.out, m.children)
    } else {
        octants_rest(world, focus, e, o + 1, in_fov, out, children)
    }
}

/// Orders the focus's own zone above the zones entered through portals.
pub open spec fn entry_rank(e: PendingZone) -> int {
    if e.from_portal.is_none() {
        1
    } else {
        0
    }
}

/// The tiles reported after `out` once entry `e`, and every entry reached
/// from it, has been swept.
pub open spec fn entry_model<W, Z, P: FovItem>(
    world: &World<W, Z, P>,
    focus: RelativeCoord,
    e: PendingZone,
    out: Seq<RelativeCoord>,
) -> Seq<RelativeCoord>
    decreases e.radius, entry_rank(e), 1int, 0int,
{
    let zv = world.zone_map()[e.zone_id]@;
    let origin = e.from_portal.is_none();
    let out1 = if origin {
        with_tile(out, focus)
    } else {
        out
    };
    let under = zv.tile_at(e.entry).portal_id;
    let ch0 = if origin && under.is_some() {
        seq![child_spec(world, e.zone_id, under.unwrap(), (0i64, 0i64), e.radius)]
    } else {
        Seq::empty()
    };
    let swept = octants_rest(world, focus, e, 0, Seq::new(zv.size * zv.size, |i: int| false), out1, ch0);
    children_rest(world, focus, e, swept.2, 0, swept.1)
}

/// The tiles reported after `out` once the entries `cs[i..]` found under
/// `parent` have been swept in turn.
pub open spec fn children_rest<W, Z, P: FovItem>(
    world: &World<W, Z, P>,
    focus: RelativeCoord,
    parent: PendingZone,
    cs: Seq<PendingZone>,
    i: int,
    out: Seq<RelativeCoord>,
) -> Seq<RelativeCoord>
    decreases parent.radius, entry_rank(parent), 0int, cs.len() - i,
{
    if 0 <= i < cs.len() {
        let c = cs[i];
        if c.radius < parent.radius || (c.radius == parent.radius && parent.from_portal.is_none()
            && c.from_portal.is_some()) {
            children_rest(world, focus, parent, cs, i + 1, entry_model(world, focus, c, out))
        } else {
            out
        }
    } else {
        out
    }
}

/// The tiles that a query from `focus` within `radius` reports, in the order
/// in which it finds them.
pub open spec fn visible_from<W, Z, P: FovItem>(
    world: &World<W, Z, P>,
    focus: RelativeCoord,
    radius: u32,
) -> Seq<RelativeCoord> {
    entry_model(
        world,
        focus,
        PendingZone {
            zone_id: focus.zone_id,
            entry: (focus.lx, focus.ly),
            rel: (0, 0),
            radius,
            from_portal: None,
            from_dir: TraversalDirection::NoDirection,
        },
        Seq::empty(),
    )
}

/// Whether octant `(dx, dy)` faces away from a portal entered in `from_dir`;
/// every octant does in the focus's own zone.
fn octant_selected(from_dir: TraversalDirection, dx: i64, dy: i64) -> (r: bool)
    ensures
        r == selected_spec(from_dir, dx, dy),
{
    match from_dir {
        TraversalDirection::NoDirection => true,
        TraversalDirection::North => dy == -1,
        TraversalDirection::South => dy == 1,
        TraversalDirection::East => dx == 1,
        TraversalDirection::West => dx == -1,
    }
}

/// Standing on a portal whose far side is open, the entry queued for that
/// portal opens onto the tile past its far end.
proof fn lemma_portal_child_opens<W, Z, P: FovItem>(
    world: &World<W, Z, P>,
    focus: RelativeCoord,
    radius: u32,
)
    requires
        world.wf(),
        world.zone_map().contains_key(focus.zone_id),
        in_bounds((focus.lx, focus.ly), world.zone_map()[focus.zone_id]@.size),
        sees_past_portal(world, focus, radius as int),
    ensures
        ({
            let pid = world.zone_map()[focus.zone_id]@.tile_at((focus.lx, focus.ly)).portal_id.unwrap();
            let c = child_spec(world, focus.zone_id, pid, (0i64, 0i64), radius);
            &&& world.zone_map()[focus.zone_id]@.portals.contains_key(pid)
            &&& opens_onto(world, c)
            &&& seen_tile(
                focus,
                c.zone_id,
                c.entry.0 as int,
                c.entry.1 as int,
                past_entry(c).0,
                past_entry(c).1,
            ) == past_far_end(world, focus)
        }),
{
    let zv = world.zone_map()[focus.zone_id]@;
    assert(zv.wf());
    let pid = zv.tile_at((focus.lx, focus.ly)).portal_id.unwrap();
    lemma_idx_in_square(focus.lx as int, focus.ly as int, zv.size as int);
    let i = spec_idx(focus.lx as int, focus.ly as int, zv.size as int);
    assert(zv.tiles[i].portal_id == Some(pid));
    assert(zv.portals.contains_key(pid));
    assert(world.portal_linked(focus.zone_id, pid));
    let c = child_spec(world, focus.zone_id, pid, (0i64, 0i64), radius);
    let far = world.zone_map()[c.zone_id]@;
    assert(far.wf());
    let t = past_entry(c);
    lemma_idx_in_square(t.0, t.1, far.size as int);
    assert(far.tile_at((t.0 as usize, t.1 as usize)) == far.tiles[t.0 + t.1 * far.size]);
}

/// Sweeps the zone of entry `e` and then, one by one, every zone reached
/// through the portals it sees.
#[verifier::loop_isolation(false)]
fn process_entry<W, Z, P: FovItem>(
    world: &World<W, Z, P>,
    focus: &RelativeCoord,
    radius: u32,
    e: PendingZone,
    out: &mut Vec<RelativeCoord>,
) -> (r: Result<(), WorldError>)
    requires
        world.wf(),
        entry_ok(world, e, radius as int),
        e.from_portal.is_none() ==> e.zone_id == focus.zone_id && e.entry == (focus.lx, focus.ly)
            && e.radius == radius,
        all_reportable(world, *focus, radius as int, old(out)@),
        i64::MIN + radius <= focus.gx <= i64::MAX - radius,
        i64::MIN + radius <= focus.gy <= i64::MAX - radius,
    ensures
        r is Ok,
        all_reportable(world, *focus, radius as int, final(out)@),
        keeps(old(out)@, final(out)@),
        e.from_portal.is_none() ==> final(out)@.contains(*focus),
        final(out)@ == entry_model(world, *focus, e, old(out)@),
        opens_onto(world, e) ==> final(out)@.contains(
            seen_tile(
                *focus,
                e.zone_id,
                e.entry.0 as int,
                e.entry.1 as int,
                past_entry(e).0,
                past_entry(e).1,
            ),
        ),
        from_focus(*focus, e) && sees_past_portal(world, *focus, e.radius as int) ==> final(out)@.contains(past_far_end(world, *focus)),
        plain_origin(world, *focus, e) ==> (framed(*focus, old(out)@) ==> framed(*focus, final(out)@)),
        clear_origin(world, *focus, e) ==> forall|c: RelativeCoord|
            in_square(world, *focus, radius as int, c) ==> #[trigger] final(out)@.contains(c),
    decreases e.radius, (if e.from_portal.is_none() {
        1int
    } else {
        0int
    }),
{
    let zone = match world.get_zone(&e.zone_id) {
        Ok(z) => z,
        Err(err) => return Err(err),
    };
    let ghost clear = clear_origin(world, *focus, e);
    let ghost origin = from_focus(*focus, e);
    let ghost plain = plain_origin(world, *focus, e);
    let ghost size = zone@.size as int;
    proof {
        assert(zone@.wf());
        lemma_keeps_refl(out@);
    }
    let ghost out0 = out@;
    let mut children: Vec<PendingZone> = Vec::new();
    proof {
        reveal(children_ok);
    }
    if e.from_portal.is_none() {
        // The focus is always seen, and a portal under it opens at once.
        let ghost before = out@;
        proof {
            reveal(all_reportable);
        }
        push_unique(out, *focus);
        proof {
            reveal(keeps);
            assert forall|q: RelativeCoord| before.contains(q) implies out@.contains(q) by {
                if out@ != before {
                    let j = choose|j: int| 0 <= j < before.len() && before[j] == q;
                    assert(out@[j] == q);
                }
            }
            if origin && framed(*focus, before) {
                lemma_framed_push(*focus, before, out@, *focus);
            }
        }
        let t = zone.get_tile(e.entry);
        if let Some(pid) = t.portal_id {
            proof {
                lemma_idx_in_square(e.entry.0 as int, e.entry.1 as int, zone@.size as int);
                let i = spec_idx(e.entry.0 as int, e.entry.1 as int, zone@.size as int);
                assert(zone@.tiles[i].portal_id == Some(pid));
            }
            match build_pending_zone_entry(world, e.zone_id, pid, (0, 0), e.radius) {
                Ok(child) => children.push(child),
                Err(err) => return Err(err),
            }
        }
        proof {
            if plain {
                lemma_idx_in_square(e.entry.0 as int, e.entry.1 as int, zone@.size as int);
                let i = spec_idx(e.entry.0 as int, e.entry.1 as int, zone@.size as int);
                assert(zone@.tiles[i].portal_id.is_none());
            }
        }
    }
    let ghost after_focus = out@;
    let ghost zv = zone@;
    let ghost ch0 = children@;
    let ghost target_e = seen_tile(
        *focus,
        e.zone_id,
        e.entry.0 as int,
        e.entry.1 as int,
        past_entry(e).0,
        past_entry(e).1,
    );
    let ghost opens = opens_onto(world, e);
    let ghost sees = from_focus(*focus, e) && sees_past_portal(world, *focus, e.radius as int);
    let ghost pid0 = match zv.tile_at((focus.lx, focus.ly)).portal_id {
        Some(p) => p,
        None => 0,
    };
    let ghost child0 = child_spec(world, e.zone_id, pid0, (0i64, 0i64), e.radius);
    proof {
        if sees {
            lemma_portal_child_opens(world, *focus, e.radius);
            assert(ch0 =~= seq![child0]);
        }
        lemma_prefix_refl(children@);
    }
    proof {
        let under = zv.tile_at(e.entry).portal_id;
        if e.from_portal.is_none() && under.is_some() {
            assert(ch0 =~= seq![child_spec(world, e.zone_id, under.unwrap(), (0i64, 0i64), e.radius)]);
        } else {
            assert(ch0 =~= Seq::<PendingZone>::empty());
        }
    }
    let size_x = zone.size();
    let total = size_x * size_x;
    let mut in_fov: Vec<bool> = Vec::with_capacity(total);
    while in_fov.len() < total
        invariant
            in_fov@.len() <= total,
            forall|j: int| 0 <= j < in_fov@.len() ==> !#[trigger] in_fov@[j],
        decreases total - in_fov@.len(),
    {
        in_fov.push(false);
    }
    let ghost swept = octants_rest(world, *focus, e, 0, in_fov@, out@, children@);
    proof {
        assert(in_fov@ =~= Seq::new(zv.size * zv.size, |i: int| false));
    }
    let mut o: usize = 0;
    while o < 8
        invariant
            world.wf(),
            zone@.wf(),
            *zone == world.zone_map()[e.zone_id],
            in_fov@.len() == total,
            total == zone@.size * zone@.size,
            all_reportable(world, *focus, radius as int, out@),
            keeps(old(out)@, out@),
            keeps(after_focus, out@),
            children_ok(world, e, radius as int, children@),
            plain ==> children@.len() == 0,
            origin ==> (framed(*focus, old(out)@) ==> framed(*focus, out@)),
            octants_rest(world, *focus, e, o as int, in_fov@, out@, children@) == swept,
            prefix_kept(ch0, children@),
            opens && o > dir_octant(e.from_dir) ==> out@.contains(target_e),
            clear ==> forall|o2: int|
                0 <= o2 < o ==> #[trigger] covered(
                    *focus,
                    size,
                    out@,
                    oct_dx(o2),
                    oct_dy(o2),
                    oct_vert(o2),
                    radius as int,
                    0,
                ),
        decreases 8 - o,
    {
        let dx: i64 = if o < 4 {
            1
        } else {
            -1
        };
        let dy: i64 = if o % 4 < 2 {
            1
        } else {
            -1
        };
        let is_vert = o % 2 == 0;
        proof {
            assert(dx == oct_dx(o as int) && dy == oct_dy(o as int) && is_vert == oct_vert(o as int));
        }
        if octant_selected(e.from_dir, dx, dy) {
            let ghost before = out@;
            let ghost before_children = children@;
            let r = compute_octant(
                world,
                zone,
                focus,
                radius,
                &e,
                &mut in_fov,
                (dx, dy),
                is_vert,
                out,
                &mut children,
            );
            proof {
                lemma_keeps_trans(old(out)@, before, out@);
                lemma_keeps_trans(after_focus, before, out@);
                lemma_prefix_trans(ch0, before_children, children@);
                if opens {
                    if o as int == dir_octant(e.from_dir) {
                        let f = frame_of(zone@.size as int, e, (dx, dy), is_vert);
                        lemma_side_small(zone@.size as int);
                        assert(e.rel == (0i64, 0i64));
                        assert(e.entry.0 < zone@.size && e.entry.1 < zone@.size);
                        assert(f.vx == e.entry.0 && f.vy == e.entry.1);
                    } else if o as int > dir_octant(e.from_dir) {
                        reveal(keeps);
                    }
                }
                if clear {
                    assert forall|o2: int| 0 <= o2 < o + 1 implies #[trigger] covered(
                        *focus,
                        size,
                        out@,
                        oct_dx(o2),
                        oct_dy(o2),
                        oct_vert(o2),
                        radius as int,
                        0,
                    ) by {
                        if o2 < o {
                            lemma_covered_keeps(
                                *focus,
                                size,
                                before,
                                out@,
                                oct_dx(o2),
                                oct_dy(o2),
                                oct_vert(o2),
                                radius as int,
                                0,
                            );
                        } else {
                            assert(oct_dx(o2) == dx && oct_dy(o2) == dy && oct_vert(o2) == is_vert);
                        }
                    }
                }
            }
            if let Err(err) = r {
                return Err(err);
            }
        }
        o += 1;
    }
    proof {
        assert(entry_model(world, *focus, e, out0) == children_rest(world, *focus, e, children@, 0, out@));
        if sees {
            reveal(prefix_kept);
            assert(children@[0] == ch0[0]);
        }
    }
    let mut i: usize = 0;
    while i < children.len()
        invariant
            world.wf(),
            all_reportable(world, *focus, radius as int, out@),
            keeps(old(out)@, out@),
            keeps(after_focus, out@),
            children_ok(world, e, radius as int, children@),
            plain ==> children@.len() == 0,
            plain ==> (framed(*focus, old(out)@) ==> framed(*focus, out@)),
            clear ==> forall|o2: int|
                0 <= o2 < 8 ==> #[trigger] covered(
                    *focus,
                    size,
                    out@,
                    oct_dx(o2),
                    oct_dy(o2),
                    oct_vert(o2),
                    radius as int,
                    0,
                ),
            children_rest(world, *focus, e, children@, i as int, out@) == entry_model(world, *focus, e, out0),
            opens ==> out@.contains(target_e),
            sees ==> children@.len() >= 1 && children@[0] == child0,
            sees && i > 0 ==> out@.contains(past_far_end(world, *focus)),
        decreases children@.len() - i,
    {
        let child = children[i];
        proof {
            reveal(children_ok);
            assert(entry_ok(world, children@[i as int], radius as int));
        }
        let ghost before = out@;
        let r = process_entry(world, focus, radius, child, out);
        proof {
            lemma_keeps_trans(old(out)@, before, out@);
            lemma_keeps_trans(after_focus, before, out@);
            if opens || (sees && i > 0) {
                reveal(keeps);
            }
        }
        if let Err(err) = r {
            return Err(err);
        }
        i += 1;
    }
    proof {
        if e.from_portal.is_none() {
            reveal(keeps);
            assert(after_focus.contains(*focus));
        }
        if clear {
            assert forall|c: RelativeCoord| in_square(world, *focus, radius as int, c) implies #[trigger] out@.contains(c) by {
                if c.lx == focus.lx && c.ly == focus.ly {
                    assert(c == *focus);
                } else {
                    lemma_octants_cover(*focus, size, radius as int, out@, c.lx as int, c.ly as int);
                    assert(c == placed(*focus, c.lx as int, c.ly as int));
                }
            }
        }
    }
    Ok(())
}

/// Computes the tiles visible from `focus` within `radius`, across every zone
/// that the portals it sees lead to: exactly `visible_from(world, focus,
/// radius)`, in that order.
///
/// The focus is always reported. Every other reported tile is a tile of the
/// world, in bounds, not `Void`, and within Chebyshev distance `radius` of
/// the focus in the focus's frame. No tile is reported twice. When the
/// focus's zone holds no portal, every reported tile is a tile of that zone
/// placed in the focus's frame; when it is moreover all transparent, exactly
/// the tiles of that zone within Chebyshev distance `radius` are reported.
/// Standing on a portal, with a radius of at least one, the query sees the
/// tile just past the portal's far end when that tile is open.
pub fn compute<W, Z, P: FovItem>(world: &World<W, Z, P>, focus: RelativeCoord, radius: u32) -> (r:
    Result<Vec<RelativeCoord>, WorldError>)
    requires
        world.wf(),
        i64::MIN + radius <= focus.gx <= i64::MAX - radius,
        i64::MIN + radius <= focus.gy <= i64::MAX - radius,
    ensures
        match r {
            Ok(v) => {
                &&& world.zone_map().contains_key(focus.zone_id)
                &&& in_bounds((focus.lx, focus.ly), world.zone_map()[focus.zone_id]@.size)
                &&& v@ == visible_from(world, focus, radius)
                &&& sees_past_portal(world, focus, radius as int) ==> v@.contains(
                    past_far_end(world, focus),
                )
                &&& v@.contains(focus)
                &&& v@.no_duplicates()
                &&& forall|i: int|
                    0 <= i < v@.len() ==> #[trigger] reportable(world, focus, radius as int, v@[i])
                &&& portal_free(world, focus.zone_id) ==> forall|i: int|
                    0 <= i < v@.len() ==> #[trigger] in_square(world, focus, radius as int, v@[i])
                &&& all_clear(world, focus.zone_id) ==> forall|c: RelativeCoord|
                    #![trigger v@.contains(c)]
                    #![trigger in_square(world, focus, radius as int, c)]
                    v@.contains(c) <==> in_square(world, focus, radius as int, c)
            },
            Err(e) => {
                ||| e == WorldError::UnknownReference && !world.zone_map().contains_key(focus.zone_id)
                ||| e == WorldError::FocusOutOfBounds && world.zone_map().contains_key(focus.zone_id)
                    && !in_bounds((focus.lx, focus.ly), world.zone_map()[focus.zone_id]@.size)
            },
        },
{
    let zone = match world.get_zone(&focus.zone_id) {
        Ok(z) => z,
        Err(err) => return Err(err),
    };
    if !zone.coords_in_bounds((focus.lx, focus.ly)) {
        return Err(WorldError::FocusOutOfBounds);
    }
    let mut visible_tiles: Vec<RelativeCoord> = Vec::new();
    let start = PendingZone {
        zone_id: focus.zone_id,
        entry: (focus.lx, focus.ly),
        rel: (0, 0),
        radius,
        from_portal: None,
        from_dir: TraversalDirection::NoDirection,
    };
    proof {
        reveal(all_reportable);
        reveal(framed);
    }
    match process_entry(world, &focus, radius, start, &mut visible_tiles) {
        Ok(()) => {},
        Err(err) => return Err(err),
    }
    proof {
        reveal(all_reportable);
        if portal_free(world, focus.zone_id) {
            reveal(framed);
            let v = visible_tiles@;
            assert forall|i: int| 0 <= i < v.len() implies #[trigger] in_square(
                world,
                focus,
                radius as int,
                v[i],
            ) by {
                assert(reportable(world, focus, radius as int, v[i]));
            }
        }
        if all_clear(world, focus.zone_id) {
            reveal(framed);
            let v = visible_tiles@;
            assert forall|c: RelativeCoord| v.contains(c) implies in_square(
                world,
                focus,
                radius as int,
                c,
            ) by {
                let i = choose|i: int| 0 <= i < v.len() && v[i] == c;
                assert(reportable(world, focus, radius as int, v[i]));
            }
        }
    }
    Ok(visible_tiles)
}

/// A query is a function of its arguments: two queries with equal worlds,
/// foci and radii report the same tiles in the same order.
pub proof fn lemma_compute_deterministic<W, Z, P: FovItem>(
    w1: &World<W, Z, P>,
    w2: &World<W, Z, P>,
    f1: RelativeCoord,
    f2: RelativeCoord,
    r1: u32,
    r2: u32,
)
    requires
        *w1 == *w2,
        f1 == f2,
        r1 == r2,
    ensures
        visible_from(w1, f1, r1) == visible_from(w2, f2, r2),
{
}

} // verus!
