use p2d::fov::{compute, FovType};
use p2d::world::{RelativeCoord, TraversalDirection, World, WorldError};

type Grid = World<(), (), FovType>;

fn zone_with(world: &mut Grid, size: usize, cells: &[((usize, usize), FovType)]) -> u128 {
    let cells = cells.to_vec();
    world
        .new_zone(size, (), move |x, y| {
            let class = cells
                .iter()
                .find(|(c, _)| *c == (x, y))
                .map(|(_, f)| *f)
                .unwrap_or(FovType::Transparent);
            (true, class)
        })
        .unwrap()
}

fn focus(zone: u128, x: usize, y: usize) -> RelativeCoord {
    RelativeCoord::new(zone, (x, y), (0, 0))
}

fn seen(v: &[RelativeCoord], zone: u128, x: usize, y: usize) -> bool {
    v.iter().any(|c| c.zone_id == zone && c.lx == x && c.ly == y)
}

fn sorted(mut v: Vec<RelativeCoord>) -> Vec<(u128, usize, usize, i64, i64)> {
    let mut t: Vec<_> = v.drain(..).map(|c| (c.zone_id, c.lx, c.ly, c.gx, c.gy)).collect();
    t.sort();
    t
}

/// Zones A and B, 5x5 and clear, joined at A(4,2) (left eastwards) and B(0,2).
fn two_zones() -> (Grid, u128, u128) {
    let mut w: Grid = World::new(());
    let a = zone_with(&mut w, 5, &[]);
    let b = zone_with(&mut w, 5, &[]);
    w.new_portal((a, (4, 2), TraversalDirection::East), (b, (0, 2), TraversalDirection::West)).unwrap();
    (w, a, b)
}

#[test]
fn empty_five_by_five() {
    let mut w: Grid = World::new(());
    let z = zone_with(&mut w, 5, &[]);
    let v = compute(&w, focus(z, 2, 2), 2).unwrap();
    assert_eq!(v.len(), 25);
    for gx in -2..=2i64 {
        for gy in -2..=2i64 {
            assert!(v.iter().any(|c| c.gx == gx && c.gy == gy));
        }
    }
    for c in &v {
        assert_eq!(c.gx, c.lx as i64 - 2);
        assert_eq!(c.gy, c.ly as i64 - 2);
    }
}

#[test]
fn wall_shadow() {
    let mut w: Grid = World::new(());
    let z = zone_with(&mut w, 7, &[((3, 2), FovType::Blocking)]);
    let v = compute(&w, focus(z, 3, 3), 3).unwrap();
    assert!(!seen(&v, z, 3, 0));
    assert!(!seen(&v, z, 3, 1));
    assert!(seen(&v, z, 3, 2));
    assert!(seen(&v, z, 2, 1));
    assert!(seen(&v, z, 4, 1));
    assert!(seen(&v, z, 1, 0));
    assert!(seen(&v, z, 5, 0));
    // The wall shades the whole of the slope range [0, 1/2] above it, which
    // covers (2,0) and (4,0) as well.
    assert!(!seen(&v, z, 2, 0));
    assert!(!seen(&v, z, 4, 0));
}

#[test]
fn pillar() {
    let mut w: Grid = World::new(());
    let z = zone_with(&mut w, 7, &[((4, 3), FovType::Blocking)]);
    let v = compute(&w, focus(z, 3, 3), 4).unwrap();
    assert!(!seen(&v, z, 5, 3));
    assert!(!seen(&v, z, 6, 3));
    assert!(seen(&v, z, 5, 2));
    assert!(seen(&v, z, 5, 4));
}

#[test]
fn two_zone_portal() {
    let (w, a, b) = two_zones();
    let v = compute(&w, focus(a, 2, 2), 4).unwrap();
    assert!(v.contains(&RelativeCoord::new(b, (0, 2), (2, 0))));
    assert!(v.contains(&RelativeCoord::new(b, (1, 2), (3, 0))));
    for c in v.iter().filter(|c| c.zone_id == b) {
        assert_eq!(c.gx, c.lx as i64 + 2);
        assert_eq!(c.gy, c.ly as i64 - 2);
    }
}

#[test]
fn portal_half_field() {
    let (w, a, b) = two_zones();
    let v = compute(&w, focus(a, 2, 2), 6).unwrap();
    let in_b: Vec<_> = v.iter().filter(|c| c.zone_id == b).collect();
    assert!(!in_b.is_empty());
    for c in &in_b {
        // Only B's side of the portal, in the shared frame.
        assert!(c.gx >= 2);
        assert_eq!(c.gx, c.lx as i64 + 2);
        assert_eq!(c.gy, c.ly as i64 - 2);
    }
    assert!(in_b.iter().any(|c| c.lx == 2 && c.ly == 2));
}

#[test]
fn focus_is_always_reported() {
    let mut w: Grid = World::new(());
    let z = zone_with(&mut w, 3, &[((1, 1), FovType::Void)]);
    for r in 0..3u32 {
        let f = focus(z, 1, 1);
        let v = compute(&w, f, r).unwrap();
        assert!(v.contains(&f));
    }
    let w2: Grid = World::new(());
    let _ = w2;
}

#[test]
fn radius_bound_in_one_zone() {
    let mut w: Grid = World::new(());
    let z = zone_with(&mut w, 9, &[((2, 2), FovType::Blocking), ((6, 3), FovType::Blocking)]);
    for r in 0..6u32 {
        let f = RelativeCoord::new(z, (4, 4), (10, -7));
        let v = compute(&w, f, r).unwrap();
        for c in &v {
            assert!((c.gx - 10).abs() <= r as i64);
            assert!((c.gy + 7).abs() <= r as i64);
        }
    }
}

#[test]
fn radius_zero_sees_only_the_focus() {
    let mut w: Grid = World::new(());
    let z = zone_with(&mut w, 5, &[]);
    let v = compute(&w, focus(z, 2, 2), 0).unwrap();
    assert_eq!(v, vec![focus(z, 2, 2)]);
}

#[test]
fn open_zone_sees_its_chebyshev_square() {
    let mut w: Grid = World::new(());
    let z = zone_with(&mut w, 8, &[]);
    let v = compute(&w, focus(z, 1, 5), 3).unwrap();
    let mut expected = Vec::new();
    for x in 0..8usize {
        for y in 0..8usize {
            let (ox, oy) = (x as i64 - 1, y as i64 - 5);
            if ox.abs() <= 3 && oy.abs() <= 3 {
                expected.push(RelativeCoord::new(z, (x, y), (ox, oy)));
            }
        }
    }
    assert_eq!(sorted(v), sorted(expected));
}

#[test]
fn blocker_behind_blocker_changes_nothing() {
    let mut w: Grid = World::new(());
    let z = zone_with(&mut w, 7, &[((3, 2), FovType::Blocking)]);
    let before = compute(&w, focus(z, 3, 3), 3).unwrap();
    let mut w2: Grid = World::new(());
    let z2 = zone_with(&mut w2, 7, &[((3, 2), FovType::Blocking), ((3, 0), FovType::Blocking)]);
    let after = compute(&w2, focus(z2, 3, 3), 3).unwrap();
    let strip = |v: Vec<RelativeCoord>| {
        let mut t: Vec<_> = v.iter().map(|c| (c.lx, c.ly, c.gx, c.gy)).collect();
        t.sort();
        t
    };
    assert_eq!(strip(before), strip(after));
}

#[test]
fn portal_sight_goes_both_ways() {
    let (w, a, b) = two_zones();
    let from_a = compute(&w, focus(a, 2, 2), 4).unwrap();
    assert!(from_a.iter().any(|c| c.zone_id == b));
    let from_b = compute(&w, focus(b, 2, 2), 4).unwrap();
    assert!(from_b.iter().any(|c| c.zone_id == a));
    assert!(from_b.contains(&RelativeCoord::new(a, (4, 2), (-2, 0))));
    assert!(from_b.contains(&RelativeCoord::new(a, (3, 2), (-3, 0))));
    for c in from_b.iter().filter(|c| c.zone_id == a) {
        assert!(c.gx <= -2);
        assert!(c.gx.abs() <= 4 && c.gy.abs() <= 4);
    }
}

#[test]
fn equal_queries_give_equal_sets() {
    let (w, a, _) = two_zones();
    let v1 = compute(&w, focus(a, 1, 3), 5).unwrap();
    let v2 = compute(&w, focus(a, 1, 3), 5).unwrap();
    assert_eq!(sorted(v1), sorted(v2));
}

#[test]
fn void_is_never_seen_but_seen_past() {
    let mut w: Grid = World::new(());
    let z = zone_with(&mut w, 7, &[((3, 2), FovType::Void)]);
    let v = compute(&w, focus(z, 3, 3), 3).unwrap();
    assert!(!seen(&v, z, 3, 2));
    assert!(seen(&v, z, 3, 1));
    assert!(seen(&v, z, 3, 0));
}

#[test]
fn no_tile_is_reported_twice() {
    let (w, a, _) = two_zones();
    let v = compute(&w, focus(a, 3, 2), 6).unwrap();
    let n = v.len();
    assert_eq!(sorted(v).windows(2).filter(|p| p[0] == p[1]).count(), 0);
    assert!(n > 0);
}

#[test]
fn unknown_focus_zone_is_reported() {
    let (w, a, b) = two_zones();
    let stranger = a ^ b ^ 1;
    assert_eq!(compute(&w, focus(stranger, 0, 0), 2), Err(WorldError::UnknownReference));
}

#[test]
fn focus_outside_its_zone_is_reported() {
    let (w, a, _) = two_zones();
    assert_eq!(compute(&w, focus(a, 5, 0), 2), Err(WorldError::FocusOutOfBounds));
}

#[test]
fn allow_los_by_class() {
    assert!(FovType::Transparent.allow_los());
    assert!(FovType::Void.allow_los());
    assert!(!FovType::Blocking.allow_los());
    assert_eq!(FovType::default(), FovType::Void);
}

#[derive(Clone, Copy, PartialEq, Debug)]
enum Terrain {
    Floor,
    Wall,
    Chasm,
}

impl p2d::fov::FovItem for Terrain {
    fn fov_spec(&self) -> FovType {
        self.get_fov()
    }

    fn get_fov(&self) -> FovType {
        match self {
            Terrain::Floor => FovType::Transparent,
            Terrain::Wall => FovType::Blocking,
            Terrain::Chasm => FovType::Void,
        }
    }
}

impl p2d::world::Payloadable for Terrain {
    fn spec_stub() -> Terrain {
        Terrain::Chasm
    }

    fn stub() -> Terrain {
        Terrain::Chasm
    }
}

#[test]
fn client_payload_drives_sight() {
    let mut w: World<&str, u8, Terrain> = World::new("dungeon");
    let z = w
        .new_zone(5, 7, |x, _| (true, if x == 3 { Terrain::Wall } else { Terrain::Floor }))
        .unwrap();
    let v = compute(&w, focus(z, 1, 2), 4).unwrap();
    assert!(seen(&v, z, 3, 2));
    assert!(!seen(&v, z, 4, 2));
    assert!(seen(&v, z, 0, 0));
    assert_eq!(*w.data(), "dungeon");
    assert_eq!(*w.get_zone(&z).unwrap().data(), 7);
}

#[test]
fn fresh_zone_holds_stub_tiles() {
    let zone: p2d::zone::Zone<(), Terrain> = p2d::zone::Zone::new(3, 42, ());
    assert_eq!(zone.id(), 42);
    assert_eq!(zone.size(), 3);
    assert!(zone.coords_in_bounds((2, 2)));
    assert!(!zone.coords_in_bounds((3, 0)));
    let t = zone.get_tile((1, 2));
    assert!(!t.passable);
    assert_eq!(t.payload, Terrain::Chasm);
    assert_eq!(t.portal_id, None);
    assert_eq!(p2d::zone::Tile::<Terrain>::stub_payload(), Terrain::Chasm);
    assert_eq!(zone.get_portal_coords(&5), None);
}

#[test]
fn standing_on_a_portal_sees_past_its_far_end() {
    let (w, a, b) = two_zones();
    let v = compute(&w, focus(a, 4, 2), 1).unwrap();
    assert!(v.contains(&RelativeCoord::new(b, (1, 2), (1, 0))));
    let v = compute(&w, focus(b, 0, 2), 1).unwrap();
    assert!(v.contains(&RelativeCoord::new(a, (3, 2), (-1, 0))));
}
