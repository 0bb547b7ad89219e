use p2d::fov::FovType;
use p2d::portal::Portal;
use p2d::world::{GlobalCoord, TraversalDirection, World, WorldError};
use p2d::zone::{coords_to_idx, ZoneTraversalResult};

type Grid = World<(), (), FovType>;

fn open_zone(world: &mut Grid, size: usize) -> u128 {
    world.new_zone(size, (), |_, _| (true, FovType::Transparent)).unwrap()
}

#[test]
fn blocked_traversal() {
    let mut w: Grid = World::new(());
    let a = open_zone(&mut w, 5);
    w.set_tile(&GlobalCoord::new(a, (2, 1)), false, FovType::Transparent).unwrap();
    assert_eq!(
        w.try_traversal(GlobalCoord::new(a, (2, 2)), TraversalDirection::North),
        Ok(ZoneTraversalResult::DestinationBlocked)
    );
}

#[test]
fn step_and_step_back() {
    let mut w: Grid = World::new(());
    let a = open_zone(&mut w, 5);
    let src = GlobalCoord::new(a, (2, 2));
    for d in [TraversalDirection::North, TraversalDirection::East, TraversalDirection::South, TraversalDirection::West] {
        let x = match w.try_traversal(src, d) {
            Ok(ZoneTraversalResult::Destination(x)) => x,
            other => panic!("unexpected {:?}", other),
        };
        assert_ne!(x, src);
        assert_eq!(w.try_traversal(x, d.opposite()), Ok(ZoneTraversalResult::Destination(src)));
    }
}

#[test]
fn step_off_the_edge() {
    let mut w: Grid = World::new(());
    let a = open_zone(&mut w, 3);
    assert_eq!(
        w.try_traversal(GlobalCoord::new(a, (0, 0)), TraversalDirection::West),
        Ok(ZoneTraversalResult::DestinationOutsideBounds)
    );
    assert_eq!(
        w.try_traversal(GlobalCoord::new(a, (2, 2)), TraversalDirection::South),
        Ok(ZoneTraversalResult::DestinationOutsideBounds)
    );
}

#[test]
fn step_through_a_portal() {
    let mut w: Grid = World::new(());
    let a = open_zone(&mut w, 5);
    let b = open_zone(&mut w, 5);
    w.new_portal((a, (4, 2), TraversalDirection::East), (b, (0, 2), TraversalDirection::West)).unwrap();
    assert_eq!(
        w.try_traversal(GlobalCoord::new(a, (4, 2)), TraversalDirection::East),
        Ok(ZoneTraversalResult::Destination(GlobalCoord::new(b, (1, 2))))
    );
    assert_eq!(
        w.try_traversal(GlobalCoord::new(b, (0, 2)), TraversalDirection::West),
        Ok(ZoneTraversalResult::Destination(GlobalCoord::new(a, (3, 2))))
    );
    // Not the portal's exit direction: an ordinary step.
    assert_eq!(
        w.try_traversal(GlobalCoord::new(a, (4, 2)), TraversalDirection::North),
        Ok(ZoneTraversalResult::Destination(GlobalCoord::new(a, (4, 1))))
    );
}

#[test]
fn no_direction_is_refused() {
    let mut w: Grid = World::new(());
    let a = open_zone(&mut w, 3);
    assert_eq!(
        w.try_traversal(GlobalCoord::new(a, (1, 1)), TraversalDirection::NoDirection),
        Err(WorldError::InvalidDirection)
    );
    assert_eq!(
        w.try_traversal(GlobalCoord::new(a, (3, 1)), TraversalDirection::North),
        Err(WorldError::CoordsOutOfBounds)
    );
    assert_eq!(
        w.try_traversal(GlobalCoord::new(a ^ 7, (1, 1)), TraversalDirection::North),
        Err(WorldError::UnknownReference)
    );
}

#[test]
fn opposite_directions() {
    assert_eq!(TraversalDirection::North.opposite(), TraversalDirection::South);
    assert_eq!(TraversalDirection::South.opposite(), TraversalDirection::North);
    assert_eq!(TraversalDirection::East.opposite(), TraversalDirection::West);
    assert_eq!(TraversalDirection::West.opposite(), TraversalDirection::East);
    assert_eq!(TraversalDirection::NoDirection.opposite(), TraversalDirection::NoDirection);
}

#[test]
fn portal_construction_checks_directions() {
    let p = Portal::new(1, 10, TraversalDirection::North, 20, TraversalDirection::South).unwrap();
    assert_eq!(p.info_from(10), Ok((20, TraversalDirection::North)));
    assert_eq!(p.info_from(20), Ok((10, TraversalDirection::South)));
    assert_eq!(p.info_from(30), Err(WorldError::PortalZoneMismatch));
    assert_eq!(
        Portal::new(1, 10, TraversalDirection::North, 20, TraversalDirection::East),
        Err(WorldError::PortalDirectionMismatch)
    );
    assert_eq!(
        Portal::new(1, 10, TraversalDirection::NoDirection, 20, TraversalDirection::NoDirection),
        Err(WorldError::PortalDirectionMismatch)
    );
}

#[test]
fn new_portal_refusals() {
    let mut w: Grid = World::new(());
    let a = open_zone(&mut w, 3);
    let b = open_zone(&mut w, 3);
    let n = TraversalDirection::North;
    let s = TraversalDirection::South;
    assert_eq!(w.new_portal((a, (0, 0), n), (b, (0, 0), n)), Err(WorldError::PortalDirectionMismatch));
    assert_eq!(w.new_portal((a, (0, 0), n), (a ^ b ^ 5, (0, 0), s)), Err(WorldError::UnknownReference));
    assert_eq!(w.new_portal((a, (0, 0), n), (a, (1, 1), s)), Err(WorldError::InvalidPortalPlacement));
    assert_eq!(w.new_portal((a, (3, 0), n), (b, (1, 1), s)), Err(WorldError::InvalidPortalPlacement));
    let pid = w.new_portal((a, (0, 0), n), (b, (1, 1), s)).unwrap();
    assert_eq!(w.new_portal((a, (0, 0), n), (b, (2, 2), s)), Err(WorldError::InvalidPortalPlacement));
    let p = w.get_portal(pid).unwrap();
    assert_eq!(p.info_from(a), Ok((b, n)));
    assert_eq!(w.get_zone(&b).unwrap().get_portal_coords(&pid), Some((1, 1)));
    assert_eq!(w.get_zone(&a).unwrap().get_tile((0, 0)).portal_id, Some(pid));
}

#[test]
fn zone_tiles_come_from_init() {
    let mut w: Grid = World::new(());
    let z = w
        .new_zone(4, (), |x, y| (x != y, if x + y == 3 { FovType::Blocking } else { FovType::Void }))
        .unwrap();
    let zone = w.get_zone(&z).unwrap();
    assert_eq!(zone.size(), 4);
    assert_eq!(zone.id(), z);
    assert!(!zone.get_tile((2, 2)).passable);
    assert!(zone.get_tile((2, 1)).passable);
    assert_eq!(*zone.get_tile((2, 1)).get_payload(), FovType::Blocking);
    assert_eq!(*zone.tile_at_idx(coords_to_idx((3, 1), 4)).get_payload(), FovType::Void);
    assert_eq!(w.get_payload(&GlobalCoord::new(z, (0, 3))), Ok(&FovType::Blocking));
    assert_eq!(w.get_payload(&GlobalCoord::new(z, (4, 3))), Err(WorldError::CoordsOutOfBounds));
    assert_eq!(w.get_zone(&(z ^ 1)).err(), Some(WorldError::UnknownReference));
}

#[test]
fn set_tile_keeps_the_portal() {
    let mut w: Grid = World::new(());
    let a = open_zone(&mut w, 3);
    let b = open_zone(&mut w, 3);
    let pid = w
        .new_portal((a, (1, 1), TraversalDirection::West), (b, (1, 1), TraversalDirection::East))
        .unwrap();
    w.set_tile(&GlobalCoord::new(a, (1, 1)), false, FovType::Blocking).unwrap();
    let t = w.get_zone(&a).unwrap().get_tile((1, 1));
    assert_eq!(t.portal_id, Some(pid));
    assert!(!t.passable);
    assert_eq!(t.payload, FovType::Blocking);
    assert_eq!(
        w.set_tile(&GlobalCoord::new(a, (1, 3)), true, FovType::Void),
        Err(WorldError::CoordsOutOfBounds)
    );
}

#[test]
fn row_major_index() {
    assert_eq!(coords_to_idx((0, 0), 5), 0);
    assert_eq!(coords_to_idx((3, 2), 5), 13);
    assert_eq!(coords_to_idx((4, 4), 5), 24);
}

#[test]
fn chosen_ids_and_collisions() {
    let mut w: Grid = World::new(());
    assert_eq!(w.insert_zone(7, 3, (), |_, _| (true, FovType::Transparent)), Ok(7));
    assert_eq!(w.insert_zone(9, 3, (), |_, _| (true, FovType::Transparent)), Ok(9));
    assert_eq!(
        w.insert_zone(7, 4, (), |_, _| (false, FovType::Blocking)),
        Err(WorldError::IdCollision)
    );
    assert_eq!(w.get_zone(&7).unwrap().size(), 3);
    let e = TraversalDirection::East;
    let west = TraversalDirection::West;
    assert_eq!(w.insert_portal(100, (7, (2, 1), e), (9, (0, 1), west)), Ok(100));
    assert_eq!(w.insert_portal(100, (7, (2, 2), e), (9, (0, 2), west)), Err(WorldError::IdCollision));
    assert_eq!(w.get_zone(&7).unwrap().get_tile((2, 2)).portal_id, None);
    assert_eq!(w.get_portal(100).unwrap().info_from(9), Ok((7, west)));
    assert_eq!(
        w.insert_portal(101, (7, (2, 1), e), (9, (0, 2), west)),
        Err(WorldError::InvalidPortalPlacement)
    );
}

#[test]
fn step_back_over_a_portal_tile_left_elsewhere() {
    let mut w: Grid = World::new(());
    let a = open_zone(&mut w, 5);
    let b = open_zone(&mut w, 5);
    w.new_portal((a, (4, 2), TraversalDirection::East), (b, (0, 2), TraversalDirection::West)).unwrap();
    let src = GlobalCoord::new(a, (4, 1));
    let x = GlobalCoord::new(a, (4, 2));
    assert_eq!(w.try_traversal(src, TraversalDirection::South), Ok(ZoneTraversalResult::Destination(x)));
    assert_eq!(w.try_traversal(x, TraversalDirection::North), Ok(ZoneTraversalResult::Destination(src)));
}
