use mazegame::object::Object;
use mazegame::room::Room;
use mazegame::tiles::{Door, Target, Tile};
use mazegame::world::{ConnectError, TileAddress, World};

fn door(id: usize) -> Tile {
    Tile::Door(Door { id, target: None, key: None, locked: false })
}

fn two_rooms() -> World {
    let mut world = World::new();
    let mut a = Room::empty(0, 3, 3);
    a.modify(1, 1, door(1));
    a.modify(0, 2, door(5));
    let mut b = Room::empty(7, 2, 4);
    b.modify(0, 3, door(2));
    world.insert_room(a);
    world.insert_room(b);
    world
}

#[test]
fn new_world_is_empty() {
    let world = World::new();
    assert!(world.rooms.is_empty());
    assert_eq!(world.start, None);
    assert_eq!(world.room_list(), Vec::<usize>::new());
    assert_eq!(world.last_id(), None);
    assert!(world.check());
}

#[test]
fn rooms_are_listed_in_order() {
    let mut world = World::new();
    for id in [5usize, 1, 9, 3] {
        world.insert_room(Room::empty(id, 1, 1));
    }
    assert_eq!(world.room_list(), vec![1, 3, 5, 9]);
    assert_eq!(world.last_id(), Some(9));
    assert!(world.has_room(3));
    assert!(!world.has_room(4));
    world.delete_room(9);
    world.delete_room(4);
    assert_eq!(world.room_list(), vec![1, 3, 5]);
    assert_eq!(world.last_id(), Some(5));
    assert_eq!(world.get_room(3).name, "Room 3");
    world.start = Some(TileAddress { room_id: 1, iy: 0, ix: 0 });
    world.clear();
    assert!(world.rooms.is_empty());
    assert_eq!(world.start, None);
}

#[test]
fn insert_replaces_the_room_with_the_same_id() {
    let mut world = World::new();
    world.insert_room(Room::empty(2, 1, 1));
    world.insert_room(Room::empty(2, 4, 5));
    assert_eq!(world.room_list(), vec![2]);
    assert_eq!(world.get_room(2).dims(), (4, 5));
}

#[test]
fn add_room_from_text() {
    let mut world = World::new();
    let start = world.add_room(4, "Attic", &["H1", "^^"]);
    assert_eq!(start, Some(TileAddress { room_id: 4, iy: 0, ix: 0 }));
    assert_eq!(world.start, None);
    let none = world.add_room(5, "Loft", &["^^"]);
    assert_eq!(none, None);
    let sky = |room: usize, ix: usize| world.get_tile(&TileAddress { room_id: room, iy: if room == 4 { 1 } else { 0 }, ix });
    assert_eq!(sky(4, 0), sky(5, 0));
    assert_eq!(sky(4, 1), sky(5, 1));
    assert!(matches!(sky(4, 0), Some(Tile::Sky(r)) if r.i == 0));
    assert!(matches!(sky(4, 1), Some(Tile::Sky(r)) if r.i == 2));
    assert_eq!(world.get_room(4).name, "Attic");
    assert_eq!(world.get_room(4).locate_door(1), Some((0, 1)));
    assert!(world.check());
}

#[test]
fn connect_sets_both_ends() {
    let mut world = two_rooms();
    world.connect(0, 1, 7, 2);
    assert_eq!(world.door(0, 1).target, Some(Target { room: 7, door: 2 }));
    assert_eq!(world.door(7, 2).target, Some(Target { room: 0, door: 1 }));
    assert_eq!(world.door(0, 5).target, None);
    assert_eq!(
        world.get_tile(&TileAddress { room_id: 0, iy: 1, ix: 1 }),
        Some(Tile::Door(Door { id: 1, target: Some(Target { room: 7, door: 2 }), key: None, locked: false }))
    );
    assert!(world.check());
}

#[test]
fn connecting_twice_fails_the_second_time() {
    let mut world = two_rooms();
    assert_eq!(world.try_connect(0, 1, 7, 2), Ok(()));
    assert_eq!(
        world.try_connect(0, 1, 7, 2),
        Err(ConnectError::OriginInUse(Target { room: 7, door: 2 }))
    );
    assert_eq!(
        world.try_connect(7, 2, 0, 1),
        Err(ConnectError::OriginInUse(Target { room: 0, door: 1 }))
    );
    assert_eq!(
        world.try_connect(0, 5, 7, 2),
        Err(ConnectError::DestinationInUse(Target { room: 0, door: 1 }))
    );
    assert_eq!(world.door(0, 1).target, Some(Target { room: 7, door: 2 }));
    assert_eq!(world.door(7, 2).target, Some(Target { room: 0, door: 1 }));
    assert_eq!(world.door(0, 5).target, None);
}

#[test]
fn connect_problems() {
    let mut world = two_rooms();
    assert_eq!(world.try_connect(3, 1, 7, 2), Err(ConnectError::NoOrigin));
    assert_eq!(world.try_connect(0, 9, 7, 2), Err(ConnectError::NoOrigin));
    assert_eq!(world.try_connect(0, 1, 8, 2), Err(ConnectError::NoDestination));
    assert_eq!(world.try_connect(0, 1, 7, 3), Err(ConnectError::NoDestination));
    assert_eq!(world.try_connect(0, 1, 0, 1), Err(ConnectError::SameDoor));
    assert_eq!(world.door(0, 1).target, None);
    assert_eq!(world.try_connect(0, 1, 0, 5), Ok(()));
    assert_eq!(world.door(0, 1).target, Some(Target { room: 0, door: 5 }));
    assert_eq!(world.door(0, 5).target, Some(Target { room: 0, door: 1 }));
}

#[test]
fn lock_door_with_an_object() {
    let mut world = two_rooms();
    world.connect(0, 1, 7, 2);
    world.lock_door_with(7, 2, Object::ToyCar);
    assert_eq!(
        world.door(7, 2),
        Door { id: 2, target: Some(Target { room: 0, door: 1 }), key: Some(Object::ToyCar), locked: true }
    );
    assert_eq!(world.door(0, 1).locked, false);
    assert!(world.has_door(7, 2));
    assert!(!world.has_door(7, 1));
    assert!(!world.has_door(1, 2));
}

#[test]
fn tiles_by_address() {
    let mut world = two_rooms();
    let at = |room_id, iy, ix| TileAddress { room_id, iy, ix };
    assert_eq!(world.get_tile(&at(0, 1, 1)), Some(door(1)));
    assert_eq!(world.get_tile(&at(0, 0, 0)), Some(Tile::Empty));
    assert_eq!(world.get_tile(&at(0, 9, 9)), Some(Tile::Empty));
    assert_eq!(world.get_tile(&at(3, 0, 0)), None);
    world.set_tile(&at(7, 1, 0), Tile::Brick);
    assert_eq!(world.get_tile(&at(7, 1, 0)), Some(Tile::Brick));
    world.set_tile(&at(3, 0, 0), Tile::Brick);
    assert_eq!(world.room_list(), vec![0, 7]);
    world.set_tile(&at(0, 0, 0), door(1));
    assert_eq!(world.get_tile(&at(0, 0, 0)), Some(door(6)));
    assert_eq!(world.get_room(0).locate_door(6), Some((0, 0)));
    world.overwrite(7, 1, 1, Tile::Object(Object::Coin));
    assert_eq!(world.get_tile(&at(7, 1, 1)), Some(Tile::Object(Object::Coin)));
    assert!(world.check());
}

#[test]
fn world_check_sees_a_misfiled_room() {
    let mut world = two_rooms();
    assert!(world.check());
    world.rooms.insert(3, Room::empty(4, 1, 1));
    assert!(!world.check());
    world.rooms.remove(&3);
    assert!(world.check());
    world.rooms.get_mut(&0).unwrap().doors.insert(9, (0, 0));
    assert!(!world.check());
}

#[test]
fn world_animates_and_crops_a_room() {
    let mut world = World::new();
    world.add_room(1, "Pond", &["~~ ", "  3"]);
    world.animate(1);
    world.animate(2);
    assert!(matches!(
        world.get_tile(&TileAddress { room_id: 1, iy: 0, ix: 1 }),
        Some(Tile::Water(p)) if p.i == 0 && p.j == 1
    ));
    world.crop_room(1, 1, 1, 1, 2);
    assert_eq!(world.get_room(1).dims(), (1, 2));
    assert_eq!(world.get_room(1).locate_door(3), Some((0, 1)));
}

#[test]
fn world_taken_apart_and_put_together() {
    let mut world = two_rooms();
    world.connect(0, 1, 7, 2);
    world.lock_door_with(7, 2, Object::Key);
    world.start = Some(TileAddress { room_id: 7, iy: 1, ix: 1 });
    let mut again = World::new();
    for id in world.room_list() {
        let room = world.get_room(id);
        let map = mazegame::a2::A2::from_vec(
            room.map.dims(),
            room.map.as_slice().to_vec(),
            room.map.sentinel(),
        )
        .unwrap();
        let copy = Room {
            id: room.id,
            rows: room.rows,
            cols: room.cols,
            map,
            doors: room.doors.clone(),
            name: room.name.clone(),
        };
        assert!(copy.check());
        again.insert_room(copy);
    }
    again.start = world.start;
    assert!(again.check());
    assert_eq!(again.room_list(), world.room_list());
    assert_eq!(again.start, world.start);
    for id in world.room_list() {
        let (a, b) = (world.get_room(id), again.get_room(id));
        assert_eq!((a.id, a.rows, a.cols, &a.name), (b.id, b.rows, b.cols, &b.name));
        assert_eq!(a.map.dims(), b.map.dims());
        assert_eq!(a.map.as_slice(), b.map.as_slice());
        assert_eq!(a.map.sentinel(), b.map.sentinel());
        assert_eq!(a.doors, b.doors);
    }
    assert_eq!(again.door(7, 2), world.door(7, 2));
}
