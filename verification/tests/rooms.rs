use mazegame::legend::{tile_of_char, RoomError};
use mazegame::mini_rng::MiniRNG;
use mazegame::object::Object;
use mazegame::room::Room;
use mazegame::tiles::{Corner, Door, Periodic, Random, Target, Tile};
use mazegame::world::TileAddress;

fn door(id: usize) -> Tile {
    Tile::Door(Door { id, target: None, key: None, locked: false })
}

fn index(room: &Room) -> Vec<(usize, (usize, usize))> {
    room.doors.iter().map(|(k, v)| (*k, *v)).collect()
}

fn index_mirrors_grid(room: &Room) -> bool {
    let sound = room.doors.iter().all(|(id, &(r, c))| {
        r < room.rows && c < room.cols && matches!(room.map.get(r, c), Tile::Door(d) if d.id == *id)
    });
    let mut complete = true;
    for r in 0..room.rows {
        for c in 0..room.cols {
            if let Tile::Door(d) = room.map.get(r, c) {
                complete = complete && room.doors.get(&d.id) == Some(&(r, c));
            }
        }
    }
    sound && complete
}

#[test]
fn empty_room() {
    let room = Room::empty(4, 3, 5);
    assert_eq!(room.id, 4);
    assert_eq!(room.dims(), (3, 5));
    assert_eq!(room.name, "Room 4");
    assert!(room.doors.is_empty());
    assert_eq!(room.map().dims(), (3, 5));
    assert!(room.map().as_slice().iter().all(|t| *t == Tile::Empty));
    assert!(room.check());
}

#[test]
fn modify_returns_what_it_wrote() {
    let mut room = Room::empty(0, 3, 3);
    assert_eq!(room.modify(1, 1, Tile::Brick), Tile::Brick);
    assert_eq!(room.map.get(1, 1), Tile::Brick);
    assert_eq!(room.modify(0, 0, door(5)), door(5));
    assert_eq!(room.locate_door(5), Some((0, 0)));
    assert_eq!(room.locate_door(6), None);
}

#[test]
fn modify_renumbers_a_colliding_door() {
    let mut room = Room::empty(0, 3, 3);
    assert_eq!(room.modify(0, 0, door(0)), door(0));
    assert_eq!(room.modify(0, 1, door(0)), door(1));
    assert_eq!(room.modify(0, 2, door(0)), door(2));
    assert_eq!(room.modify(1, 0, door(7)), door(7));
    assert_eq!(room.modify(1, 1, door(0)), door(8));
    assert_eq!(index(&room), vec![(0, (0, 0)), (1, (0, 1)), (2, (0, 2)), (7, (1, 0)), (8, (1, 1))]);
    assert!(index_mirrors_grid(&room));
}

#[test]
fn modify_forgets_the_door_it_overwrites() {
    let mut room = Room::empty(0, 2, 2);
    room.modify(0, 0, door(3));
    room.modify(1, 1, door(4));
    assert_eq!(room.modify(0, 0, Tile::Brick), Tile::Brick);
    assert_eq!(index(&room), vec![(4, (1, 1))]);
    assert_eq!(room.modify(1, 1, door(4)), door(4));
    assert_eq!(index(&room), vec![(4, (1, 1))]);
    assert_eq!(room.modify(1, 1, door(9)), door(9));
    assert_eq!(index(&room), vec![(9, (1, 1))]);
    assert!(index_mirrors_grid(&room));
}

#[test]
fn modify_keeps_the_index_in_step() {
    let mut room = Room::empty(0, 4, 4);
    let mut rng = MiniRNG::new(5);
    for _ in 0..500 {
        let iy = rng.sample_u32(4) as usize;
        let ix = rng.sample_u32(4) as usize;
        let tile = match rng.sample_u32(4) {
            0 => Tile::Empty,
            1 => Tile::Brick,
            2 => door(rng.sample_u32(3) as usize),
            _ => Tile::Object(Object::Coin),
        };
        assert!(room.can_modify(iy, ix, tile));
        let written = room.modify(iy, ix, tile);
        assert_eq!(room.map.get(iy, ix), written);
        assert!(index_mirrors_grid(&room));
        assert!(room.check());
    }
}

#[test]
fn modify_at_the_largest_id() {
    let mut room = Room::empty(0, 2, 2);
    room.modify(0, 0, door(usize::MAX));
    assert!(!room.can_modify(0, 1, door(usize::MAX)));
    assert!(room.can_modify(0, 1, door(3)));
    assert!(room.can_modify(0, 0, door(usize::MAX)));
    assert!(!room.can_modify(2, 0, Tile::Empty));
    assert!(!room.can_modify(0, 2, Tile::Empty));
}

#[test]
fn crop_drops_doors_outside_and_moves_doors_inside() {
    let mut room = Room::empty(0, 6, 6);
    room.modify(1, 1, door(3));
    room.modify(4, 5, door(8));
    room.modify(2, 3, Tile::Brick);
    room.crop(2, 3, 3, 3);
    assert_eq!(room.dims(), (3, 3));
    assert_eq!(room.map().dims(), (3, 3));
    assert_eq!(room.locate_door(3), None);
    assert_eq!(room.locate_door(8), Some((2, 2)));
    assert_eq!(room.map.get(0, 0), Tile::Brick);
    assert_eq!(room.map.get(2, 2), door(8));
    assert_eq!(index(&room), vec![(8, (2, 2))]);
    assert!(room.check());
}

#[test]
fn crop_keeps_door_three_at_its_new_place() {
    let mut room = Room::empty(1, 5, 5);
    room.modify(2, 2, door(3));
    room.crop(1, 3, 1, 3);
    assert_eq!(room.locate_door(3), Some((1, 1)));
    assert_eq!(room.id, 1);
    assert_eq!(room.name, "Room 1");
    room.crop(0, 1, 0, 1);
    assert_eq!(room.locate_door(3), None);
    assert!(room.doors.is_empty());
}

#[test]
fn crop_past_the_edge_reads_the_sentinel() {
    let mut room = Room::empty(0, 2, 2);
    room.modify(1, 1, Tile::Brick);
    room.crop(1, 2, 1, 2);
    assert_eq!(room.map.as_slice(), &[Tile::Brick, Tile::Empty, Tile::Empty, Tile::Empty]);
}

#[test]
fn reindex_takes_the_later_of_two_doors() {
    let mut room = Room::empty(0, 2, 2);
    room.map_mut().set(0, 1, door(1));
    room.map_mut().set(1, 0, door(1));
    room.map_mut().set(1, 1, door(2));
    room.reindex_doors();
    assert_eq!(index(&room), vec![(1, (1, 0)), (2, (1, 1))]);
    assert!(room.check());
}

#[test]
fn find_door_gives_the_door_for_writing() {
    let mut room = Room::empty(0, 2, 2);
    room.modify(1, 0, door(6));
    assert_eq!(room.door(6), Door { id: 6, target: None, key: None, locked: false });
    let d = room.find_door(6);
    d.locked = true;
    d.key = Some(Object::Key);
    assert_eq!(
        room.map.get(1, 0),
        Tile::Door(Door { id: 6, target: None, key: Some(Object::Key), locked: true })
    );
    room.set_door(6, Door { id: 6, target: Some(Target { room: 1, door: 1 }), key: None, locked: false });
    assert_eq!(room.door(6).target, Some(Target { room: 1, door: 1 }));
    assert!(room.check());
}

#[test]
fn overwrite_leaves_the_index_alone() {
    let mut room = Room::empty(0, 2, 2);
    room.modify(0, 0, door(1));
    room.overwrite(0, 0, Tile::Door(Door { id: 1, target: None, key: None, locked: true }));
    room.overwrite(0, 1, Tile::Object(Object::Coin));
    assert_eq!(index(&room), vec![(1, (0, 0))]);
    assert_eq!(room.map.get(0, 1), Tile::Object(Object::Coin));
    assert!(room.check());
}

#[test]
fn next_moves_every_animation() {
    let mut room = Room::empty(0, 2, 2);
    room.modify(0, 0, Tile::Water(Periodic::new(8, 8)));
    room.modify(0, 1, Tile::Fire(Periodic { i: 0, m: 3, j: 1, n: 2 }));
    room.modify(1, 0, door(1));
    room.next();
    assert_eq!(room.map.get(0, 0), Tile::Water(Periodic { i: 0, m: 8, j: 1, n: 8 }));
    assert_eq!(room.map.get(0, 1), Tile::Fire(Periodic { i: 1, m: 3, j: 0, n: 2 }));
    assert_eq!(room.map.get(1, 0), door(1));
    assert_eq!(room.map.get(1, 1), Tile::Empty);
    assert_eq!(index(&room), vec![(1, (1, 0))]);
}

#[test]
fn check_sees_a_broken_index() {
    let mut room = Room::empty(0, 2, 2);
    room.modify(0, 0, door(1));
    assert!(room.check());
    room.doors.insert(2, (1, 1));
    assert!(!room.check());
    room.doors.remove(&2);
    room.doors.insert(1, (5, 5));
    assert!(!room.check());
    room.doors.insert(1, (0, 0));
    room.rows = 3;
    assert!(!room.check());
}

#[test]
fn table_of_characters() {
    assert_eq!(tile_of_char(' '), Some(Tile::Empty));
    assert_eq!(tile_of_char('H'), Some(Tile::Empty));
    assert_eq!(tile_of_char('#'), Some(Tile::Brick));
    assert_eq!(tile_of_char('R'), Some(Tile::Rainbow));
    assert_eq!(tile_of_char('~'), Some(Tile::Water(Periodic { i: 0, m: 8, j: 0, n: 8 })));
    assert_eq!(tile_of_char('@'), Some(Tile::Vortex));
    assert_eq!(tile_of_char('.'), Some(Tile::Grass));
    assert_eq!(tile_of_char('%'), Some(Tile::Dirt));
    assert_eq!(tile_of_char('*'), Some(Tile::PyramidStone));
    assert_eq!(tile_of_char('W'), Some(Tile::Window));
    assert_eq!(tile_of_char('F'), Some(Tile::Fire(Periodic { i: 0, m: 3, j: 0, n: 2 })));
    assert_eq!(tile_of_char('q'), Some(Tile::MetalRamp(Corner::NW)));
    assert_eq!(tile_of_char('w'), Some(Tile::MetalRamp(Corner::NE)));
    assert_eq!(tile_of_char('a'), Some(Tile::MetalRamp(Corner::SW)));
    assert_eq!(tile_of_char('s'), Some(Tile::MetalRamp(Corner::SE)));
    assert_eq!(tile_of_char('m'), Some(Tile::Metal));
    assert_eq!(tile_of_char('A'), Some(Tile::Alien));
    assert_eq!(tile_of_char('x'), Some(Tile::MetalFoot));
    assert_eq!(tile_of_char('7'), Some(door(7)));
    assert_eq!(tile_of_char('K'), Some(Tile::Object(Object::Key)));
    assert_eq!(tile_of_char('b'), Some(Tile::Object(Object::Banana)));
    assert_eq!(tile_of_char('^'), None);
    assert_eq!(tile_of_char('?'), None);
    assert_eq!(tile_of_char('h'), None);
}

#[test]
fn room_from_its_description() {
    let mut rng = MiniRNG::new(1);
    let (room, start) = Room::new(3, "Cellar", &["#1#", " HK", "~ 2"], &mut rng);
    assert_eq!(room.id, 3);
    assert_eq!(room.name, "Cellar");
    assert_eq!(room.dims(), (3, 3));
    assert_eq!(
        room.map.as_slice(),
        &[
            Tile::Brick,
            door(1),
            Tile::Brick,
            Tile::Empty,
            Tile::Empty,
            Tile::Object(Object::Key),
            Tile::Water(Periodic::new(8, 8)),
            Tile::Empty,
            door(2),
        ]
    );
    assert_eq!(index(&room), vec![(1, (0, 1)), (2, (2, 2))]);
    assert_eq!(start, Some(TileAddress { room_id: 3, iy: 1, ix: 1 }));
    assert_eq!(room.map.sentinel(), Tile::Empty);
    assert!(room.check());
}

#[test]
fn room_sky_comes_from_the_generator() {
    let mut rng = MiniRNG::new(1);
    let (room, start) = Room::new(0, "Sky", &["^^^", "^ ^", "^"], &mut rng);
    let sky = |i| Tile::Sky(Random { i });
    assert_eq!(
        room.map.as_slice(),
        &[sky(0), sky(2), sky(1), sky(16), Tile::Empty, sky(17), sky(19), Tile::Empty, Tile::Empty]
    );
    assert_eq!(start, None);
    assert_eq!(rng.next(), 2688259980);
}

#[test]
fn room_starts_on_the_first_h() {
    let mut rng = MiniRNG::new(1);
    let (_, start) = Room::new(9, "Two", &["  H", "H  "], &mut rng);
    assert_eq!(start, Some(TileAddress { room_id: 9, iy: 0, ix: 2 }));
}

#[test]
fn room_with_the_same_digit_twice() {
    let mut rng = MiniRNG::new(1);
    let (room, _) = Room::new(0, "Twins", &["1 1"], &mut rng);
    assert_eq!(index(&room), vec![(1, (0, 2))]);
    assert_eq!(room.map.get(0, 0), door(1));
    assert!(room.check());
}

#[test]
fn description_problems() {
    let mut rng = MiniRNG::new(1);
    assert_eq!(Room::try_new(0, "n", &[], &mut rng).err(), Some(RoomError::NoRows));
    assert_eq!(
        Room::try_new(0, "n", &["##", "###"], &mut rng).err(),
        Some(RoomError::RowTooLong { row: 1 })
    );
    assert_eq!(
        Room::try_new(0, "n", &["## ", "#?#", "!"], &mut rng).err(),
        Some(RoomError::UnsupportedTile { row: 1, col: 1, c: '?' })
    );
    assert_eq!(
        Room::try_new(0, "n", &["^^h"], &mut rng).err(),
        Some(RoomError::UnsupportedTile { row: 0, col: 2, c: 'h' })
    );
    assert_eq!(
        Room::try_new(0, "n", &["#", "é"], &mut rng).err(),
        Some(RoomError::UnsupportedTile { row: 1, col: 0, c: 'é' })
    );
    assert_eq!(rng.next(), 184196064);
    let mut rng = MiniRNG::new(1);
    let ok = Room::try_new(2, "n", &["#^", "H"], &mut rng).unwrap();
    assert_eq!(ok.0.dims(), (2, 2));
    assert_eq!(ok.0.map.get(0, 1), Tile::Sky(Random { i: 0 }));
    assert_eq!(ok.0.map.get(1, 1), Tile::Empty);
    assert_eq!(ok.1, Some(TileAddress { room_id: 2, iy: 1, ix: 0 }));
}

#[test]
fn crop_of_a_mirrored_room_is_mirrored() {
    let mut room = Room::empty(2, 5, 7);
    room.modify(1, 2, door(3));
    room.modify(4, 6, door(4));
    room.modify(0, 0, door(5));
    room.crop(1, 4, 2, 5);
    assert_eq!(room.dims(), (4, 5));
    assert_eq!(index(&room), vec![(3, (0, 0)), (4, (3, 4))]);
    assert!(index_mirrors_grid(&room));
    assert_eq!((room.id, room.name.as_str()), (2, "Room 2"));
}
