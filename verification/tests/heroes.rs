use mazegame::facing::Facing;
use mazegame::hero::Hero;
use mazegame::object::Object;
use mazegame::position::Position;
use mazegame::sounds::Sounds;
use mazegame::tiles::{Door, Target, Tile};
use mazegame::world::{TileAddress, World};

fn world_of(rows: &[&str]) -> World {
    let mut world = World::new();
    let start = world.add_room(0, "Hall", rows);
    world.start = start;
    world
}

fn tile(world: &World, iy: usize, ix: usize) -> Tile {
    world.get_tile(&TileAddress { room_id: 0, iy, ix }).unwrap()
}

fn stands_at(hero: &Hero, iy: usize, ix: usize, f: Facing) -> bool {
    matches!(hero.position(), Position::Block(r, c, g) if r == iy && c == ix && g == f)
}

fn walks(hero: &Hero, from: (usize, usize), to: (usize, usize), step: usize, total: usize) -> bool {
    matches!(
        hero.position(),
        Position::Walking { from: a, to: b, step: s, total: t } if a == from && b == to && s == step && t == total
    )
}

fn sounds(hero: &mut Hero) -> Vec<Sounds> {
    let mut all = Vec::new();
    while let Some(s) = hero.next_sound() {
        all.push(s);
    }
    all
}

#[test]
fn hero_starts_where_the_world_says() {
    let world = world_of(&["   ", " H ", "   "]);
    let hero = Hero::new(&world, "FELIX");
    assert_eq!(hero.room(), 0);
    assert!(stands_at(&hero, 1, 1, Facing::Right));
    assert_eq!(hero.carrying(), None);
    assert_eq!(hero.coins(), 0);
    assert_eq!(hero.foods(), 0);
    assert_eq!(hero.fat(), 0);
    assert!(!hero.is_fat());
    assert!(!hero.won());
    assert_eq!(hero.message(), "");
    assert_eq!(hero.travel_request(), None);
}

#[test]
fn door_without_target_refuses() {
    let mut world = World::new();
    let mut room = mazegame::room::Room::empty(0, 3, 3);
    room.modify(1, 1, Tile::Door(Door { id: 0, target: None, key: None, locked: false }));
    world.insert_room(room);
    world.start = Some(TileAddress { room_id: 0, iy: 0, ix: 1 });
    let mut hero = Hero::new(&world, "FELIX");
    hero.start(1, 0);
    hero.stop(1, 0);
    assert!(stands_at(&hero, 0, 1, Facing::Down));
    hero.travel(&mut world, 1, 0);
    assert_eq!(hero.message(), "THIS DOOR HAS NOT BEEN INSTALLED CORRECTLY");
    assert!(stands_at(&hero, 0, 1, Facing::Down));
    assert_eq!(hero.room(), 0);
    assert_eq!(sounds(&mut hero), vec![]);
}

#[test]
fn travel_onto_empty_begins_a_walk() {
    let mut world = world_of(&["H  "]);
    let mut hero = Hero::new(&world, "FELIX");
    hero.travel(&mut world, 0, 1);
    assert!(walks(&hero, (0, 0), (0, 1), 0, 8));
    assert_eq!(hero.position().facing(), Facing::Right);
    hero.travel(&mut world, 0, 1);
    assert!(walks(&hero, (0, 0), (0, 1), 0, 8));
}

#[test]
fn travel_off_the_grid_or_into_a_wall_does_nothing() {
    let mut world = world_of(&["H#"]);
    let mut hero = Hero::new(&world, "FELIX");
    for (di, dj) in [(-1, 0), (1, 0), (0, -1), (0, 1), (0, 5), (isize::MAX, isize::MIN)] {
        hero.travel(&mut world, di, dj);
        assert!(stands_at(&hero, 0, 0, Facing::Right));
        assert_eq!(hero.message(), "");
    }
    assert_eq!(sounds(&mut hero), vec![]);
}

#[test]
fn rainbow_wins() {
    let mut world = world_of(&["HR"]);
    let mut hero = Hero::new(&world, "FELIX");
    hero.travel(&mut world, 0, 1);
    assert!(hero.won());
    assert_eq!(hero.message(), "CONGRATULATIONS FELIX YOU WON!");
    assert!(stands_at(&hero, 0, 0, Facing::Right));
    assert_eq!(tile(&world, 0, 1), Tile::Rainbow);
}

#[test]
fn walking_takes_eight_ticks() {
    let mut world = world_of(&["H   "]);
    let mut hero = Hero::new(&world, "FELIX");
    hero.start(0, 1);
    assert_eq!(hero.travel_request(), Some((0, 1)));
    hero.tick(&mut world);
    assert!(walks(&hero, (0, 0), (0, 1), 0, 8));
    assert_eq!(sounds(&mut hero), vec![]);
    for step in 1..8 {
        hero.tick(&mut world);
        assert!(walks(&hero, (0, 0), (0, 1), step, 8));
    }
    hero.tick(&mut world);
    assert!(walks(&hero, (0, 1), (0, 2), 0, 8));
    assert_eq!(sounds(&mut hero), vec![Sounds::Walk]);
    hero.stop(0, -1);
    assert_eq!(hero.travel_request(), Some((0, 1)));
    hero.stop(0, 1);
    assert_eq!(hero.travel_request(), None);
    for _ in 0..8 {
        hero.tick(&mut world);
    }
    assert!(stands_at(&hero, 0, 2, Facing::Right));
    hero.tick(&mut world);
    assert!(stands_at(&hero, 0, 2, Facing::Right));
}

#[test]
fn a_tick_of_a_standing_hero_only_tries_the_request() {
    let mut world = world_of(&["HI  "]);
    let mut hero = Hero::new(&world, "FELIX");
    hero.tick(&mut world);
    assert!(stands_at(&hero, 0, 0, Facing::Right));
    assert_eq!(hero.message(), "");
    hero.travel(&mut world, 0, 1);
    for _ in 0..8 {
        hero.tick(&mut world);
    }
    assert!(stands_at(&hero, 0, 1, Facing::Right));
    assert_eq!(hero.fat(), 248);
    assert_eq!(sounds(&mut hero), vec![Sounds::Walk, Sounds::EatFood]);
    for _ in 0..3 {
        hero.tick(&mut world);
        assert!(stands_at(&hero, 0, 1, Facing::Right));
        assert_eq!(hero.fat(), 248);
    }
    hero.start(0, 1);
    assert!(hero.can_tick(&world));
    hero.tick(&mut world);
    assert!(walks(&hero, (0, 1), (0, 2), 0, 32));
    assert_eq!(hero.fat(), 248);
    assert_eq!(sounds(&mut hero), vec![]);
    hero.tick(&mut world);
    assert!(walks(&hero, (0, 1), (0, 2), 1, 32));
    assert_eq!(hero.fat(), 247);
}

#[test]
fn start_turns_a_standing_hero_only() {
    let mut world = world_of(&["H ", "  "]);
    let mut hero = Hero::new(&world, "FELIX");
    hero.start(-1, 0);
    assert!(stands_at(&hero, 0, 0, Facing::Up));
    hero.start(0, 1);
    hero.tick(&mut world);
    hero.start(1, 0);
    assert!(walks(&hero, (0, 0), (0, 1), 0, 8));
    assert_eq!(hero.travel_request(), Some((1, 0)));
}

#[test]
fn steps_that_can_be_tried() {
    let world = world_of(&["HC", "I1"]);
    let hero = Hero::new(&world, "FELIX");
    for (di, dj) in [(0, 1), (1, 0), (1, 1), (0, -1), (5, 5)] {
        assert!(hero.can_travel(&world, di, dj));
    }
    assert!(hero.can_tick(&world));
}

#[test]
fn ice_cream_makes_fat_for_256_ticks() {
    let mut world = world_of(&["HI      "]);
    let mut hero = Hero::new(&world, "FELIX");
    hero.travel(&mut world, 0, 1);
    assert_eq!(hero.fat(), 256);
    assert!(hero.is_fat());
    assert_eq!(hero.foods(), 1);
    assert_eq!(hero.carrying(), None);
    assert_eq!(hero.message(), "YOU EAT SOME ICE CREAM AND GET FAT.  WALK TO LOSE WEIGHT");
    assert_eq!(tile(&world, 0, 1), Tile::Empty);
    assert!(walks(&hero, (0, 0), (0, 1), 0, 8));
    for _ in 0..8 {
        hero.tick(&mut world);
    }
    assert!(stands_at(&hero, 0, 1, Facing::Right));
    assert_eq!(hero.fat(), 248);
    assert_eq!(sounds(&mut hero), vec![Sounds::Walk, Sounds::EatFood]);
}

#[test]
fn fat_walks_take_thirty_two_ticks() {
    let mut world = world_of(&["HI "]);
    let mut hero = Hero::new(&world, "FELIX");
    hero.travel(&mut world, 0, 1);
    for _ in 0..8 {
        hero.tick(&mut world);
    }
    assert_eq!(hero.fat(), 248);
    hero.travel(&mut world, 0, 1);
    assert!(walks(&hero, (0, 1), (0, 2), 0, 32));
    for step in 1..32 {
        hero.tick(&mut world);
        assert!(walks(&hero, (0, 1), (0, 2), step, 32));
        assert_eq!(hero.fat(), 248 - step);
    }
    hero.tick(&mut world);
    assert!(stands_at(&hero, 0, 2, Facing::Right));
    assert_eq!(hero.fat(), 216);
}

#[test]
fn fat_wears_off() {
    let mut world = world_of(&["HI"]);
    let mut hero = Hero::new(&world, "FELIX");
    hero.travel(&mut world, 0, 1);
    for _ in 0..8 {
        hero.tick(&mut world);
    }
    let mut walks_taken = 0;
    while hero.is_fat() {
        hero.travel(&mut world, 0, if walks_taken % 2 == 0 { -1 } else { 1 });
        assert!(matches!(hero.position(), Position::Walking { step: 0, total: 32, .. }));
        for _ in 0..32 {
            hero.tick(&mut world);
        }
        walks_taken += 1;
    }
    assert_eq!(walks_taken, 8);
    assert_eq!(hero.fat(), 0);
    hero.travel(&mut world, 0, if walks_taken % 2 == 0 { -1 } else { 1 });
    assert!(matches!(hero.position(), Position::Walking { step: 0, total: 8, .. }));
}

#[test]
fn carrying_and_eating() {
    let mut world = world_of(&["H"]);
    let mut hero = Hero::new(&world, "FELIX");
    hero.carry(Object::Coin);
    assert_eq!((hero.coins(), hero.foods(), hero.carrying()), (1, 0, None));
    assert_eq!(hero.message(), "");
    hero.carry(Object::Banana);
    assert_eq!((hero.coins(), hero.foods(), hero.carrying()), (1, 1, None));
    assert_eq!(hero.message(), "YOU EAT A BANANA");
    assert_eq!(hero.fat(), 0);
    hero.carry(Object::ToyCar);
    assert_eq!((hero.coins(), hero.foods(), hero.carrying()), (1, 1, Some(Object::ToyCar)));
    assert_eq!(hero.message(), "YOU TAKE A TOY CAR");
    hero.carry(Object::IceCream);
    assert_eq!(hero.fat(), 256);
    assert_eq!(hero.carrying(), Some(Object::ToyCar));
    assert_eq!(
        sounds(&mut hero),
        vec![Sounds::EatFood, Sounds::PickUpObject, Sounds::EatFood, Sounds::PickUpCoin]
    );
    hero.say("HELLO");
    assert_eq!(hero.message(), "HELLO");
    hero.sound(Sounds::BlockedAgainstWall);
    assert_eq!(hero.next_sound(), Some(Sounds::BlockedAgainstWall));
    assert_eq!(hero.next_sound(), None);
    let _ = &mut world;
}

#[test]
fn full_hands_take_consumables_only() {
    let mut world = world_of(&["HKTC"]);
    let mut hero = Hero::new(&world, "FELIX");
    hero.travel(&mut world, 0, 1);
    assert_eq!(hero.carrying(), Some(Object::Key));
    assert_eq!(tile(&world, 0, 1), Tile::Empty);
    for _ in 0..8 {
        hero.tick(&mut world);
    }
    hero.travel(&mut world, 0, 1);
    assert!(stands_at(&hero, 0, 1, Facing::Right));
    assert_eq!(hero.message(), "YOU ARE ALREADY CARRYING A KEY");
    assert_eq!(tile(&world, 0, 2), Tile::Object(Object::ToyCar));
    assert_eq!(hero.carrying(), Some(Object::Key));
    world.overwrite(0, 0, 2, Tile::Object(Object::Coin));
    hero.travel(&mut world, 0, 1);
    assert!(walks(&hero, (0, 1), (0, 2), 0, 8));
    assert_eq!(hero.coins(), 1);
    assert_eq!(hero.carrying(), Some(Object::Key));
    assert_eq!(tile(&world, 0, 2), Tile::Empty);
}

#[test]
fn locked_door_needs_its_key() {
    let mut world = world_of(&["KH1"]);
    world.lock_door_with(0, 1, Object::Key);
    let mut hero = Hero::new(&world, "FELIX");
    hero.travel(&mut world, 0, 1);
    assert!(stands_at(&hero, 0, 1, Facing::Right));
    assert_eq!(hero.message(), "YOU NEED A KEY");
    assert!(world.door(0, 1).locked);
    hero.travel(&mut world, 0, -1);
    for _ in 0..8 {
        hero.tick(&mut world);
    }
    assert_eq!(hero.carrying(), Some(Object::Key));
    hero.travel(&mut world, 0, 1);
    for _ in 0..8 {
        hero.tick(&mut world);
    }
    assert!(stands_at(&hero, 0, 1, Facing::Right));
    hero.travel(&mut world, 0, 1);
    assert_eq!(hero.carrying(), None);
    assert_eq!(
        world.door(0, 1),
        Door { id: 1, target: None, key: Some(Object::Key), locked: false }
    );
    assert_eq!(hero.message(), "THIS DOOR HAS NOT BEEN INSTALLED CORRECTLY");
    assert!(stands_at(&hero, 0, 1, Facing::Right));
    hero.travel(&mut world, 0, 1);
    assert_eq!(hero.message(), "THIS DOOR HAS NOT BEEN INSTALLED CORRECTLY");
    assert!(stands_at(&hero, 0, 1, Facing::Right));
    assert!(!world.door(0, 1).locked);
}

#[test]
fn wrong_key_does_not_open() {
    let mut world = world_of(&["TH1"]);
    world.lock_door_with(0, 1, Object::Key);
    let mut hero = Hero::new(&world, "FELIX");
    hero.carry(Object::ToyCar);
    hero.travel(&mut world, 0, 1);
    assert_eq!(hero.message(), "YOU NEED A KEY");
    assert_eq!(hero.carrying(), Some(Object::ToyCar));
    assert!(world.door(0, 1).locked);
}

#[test]
fn keyless_lock_is_for_ever() {
    let mut world = world_of(&["H1"]);
    world.overwrite(0, 0, 1, Tile::Door(Door { id: 1, target: None, key: None, locked: true }));
    let mut hero = Hero::new(&world, "FELIX");
    hero.travel(&mut world, 0, 1);
    assert_eq!(hero.message(), "THE DOOR IS FOREVER LOCKED");
    assert!(world.door(0, 1).locked);
    hero.carry(Object::Key);
    hero.travel(&mut world, 0, 1);
    assert_eq!(hero.message(), "THE DOOR IS FOREVER LOCKED");
    assert_eq!(hero.carrying(), Some(Object::Key));
    assert!(stands_at(&hero, 0, 0, Facing::Right));
}

#[test]
fn unlocked_door_takes_the_hero_through() {
    let mut world = World::new();
    let start = world.add_room(0, "Here", &["H1"]);
    world.add_room(5, "There", &["   ", "  2"]);
    world.start = start;
    world.connect(0, 1, 5, 2);
    world.lock_door_with(0, 1, Object::Key);
    let mut hero = Hero::new(&world, "FELIX");
    hero.carry(Object::Key);
    hero.start(0, 1);
    hero.tick(&mut world);
    assert_eq!(hero.room(), 5);
    assert!(stands_at(&hero, 1, 2, Facing::Right));
    assert_eq!(hero.travel_request(), None);
    assert_eq!(hero.carrying(), None);
    assert_eq!(hero.message(), "YOU UNLOCK THE DOOR WITH A KEY");
    assert!(!world.door(0, 1).locked);
    assert_eq!(sounds(&mut hero), vec![Sounds::GoThroughDoor, Sounds::PickUpObject]);
    hero.travel(&mut world, 0, -1);
    assert!(walks(&hero, (1, 2), (1, 1), 0, 8));
}

#[test]
fn door_to_a_missing_place_leads_nowhere() {
    let mut world = world_of(&["H12"]);
    world.overwrite(
        0,
        0,
        1,
        Tile::Door(Door { id: 1, target: Some(Target { room: 9, door: 1 }), key: None, locked: false }),
    );
    let mut hero = Hero::new(&world, "FELIX");
    hero.travel(&mut world, 0, 1);
    assert_eq!(hero.message(), "THIS DOOR LEADS NOWHERE");
    assert!(stands_at(&hero, 0, 0, Facing::Right));
    world.overwrite(
        0,
        0,
        1,
        Tile::Door(Door { id: 1, target: Some(Target { room: 0, door: 7 }), key: None, locked: false }),
    );
    hero.say("");
    hero.travel(&mut world, 0, 1);
    assert_eq!(hero.message(), "THIS DOOR LEADS NOWHERE");
    world.overwrite(
        0,
        0,
        1,
        Tile::Door(Door { id: 1, target: Some(Target { room: 0, door: 2 }), key: None, locked: false }),
    );
    hero.travel(&mut world, 0, 1);
    assert_eq!(hero.room(), 0);
    assert!(stands_at(&hero, 0, 2, Facing::Right));
}

#[test]
fn dropping() {
    let mut world = world_of(&["H #"]);
    let mut hero = Hero::new(&world, "FELIX");
    hero.drop(&mut world);
    assert_eq!(hero.message(), "YOU HAVE NOTHING TO DROP");
    hero.carry(Object::ToyCar);
    hero.start(-1, 0);
    hero.stop(-1, 0);
    hero.drop(&mut world);
    assert_eq!(hero.message(), "YOU CANNOT DROP THINGS OVER THE EDGE");
    assert_eq!(hero.carrying(), Some(Object::ToyCar));
    hero.start(0, -1);
    hero.stop(0, -1);
    hero.drop(&mut world);
    assert_eq!(hero.message(), "YOU CANNOT DROP THINGS OVER THE EDGE");
    hero.start(0, 1);
    hero.stop(0, 1);
    hero.drop(&mut world);
    assert_eq!(hero.message(), "YOU DROP A TOY CAR");
    assert_eq!(hero.carrying(), None);
    assert_eq!(tile(&world, 0, 1), Tile::Object(Object::ToyCar));
    hero.carry(Object::Key);
    hero.drop(&mut world);
    assert_eq!(hero.message(), "YOU CANNOT DROP A KEY OVER THAT");
    assert_eq!(hero.carrying(), Some(Object::Key));
    assert_eq!(tile(&world, 0, 1), Tile::Object(Object::ToyCar));
    world.overwrite(0, 0, 1, Tile::Empty);
    hero.travel(&mut world, 0, 1);
    hero.drop(&mut world);
    assert_eq!(hero.message(), "YOU CANNOT DROP THINGS WHILE WALKING");
    assert_eq!(hero.carrying(), Some(Object::Key));
}
