use mazegame::editor::{palette_keys, tool_for_key, Editor, Tool, VIEW};
use mazegame::object::Object;
use mazegame::tiles::{Corner, Door, Periodic, Random, Target, Tile};
use mazegame::world::{TileAddress, World};

fn door(id: usize) -> Tile {
    Tile::Door(Door { id, target: None, key: None, locked: false })
}

fn at(room_id: usize, iy: usize, ix: usize) -> TileAddress {
    TileAddress { room_id, iy, ix }
}

fn with_room() -> Editor {
    let mut ed = Editor::new();
    assert_eq!(ed.add_room(), Some(0));
    ed
}

fn tile(ed: &Editor, room: usize, iy: usize, ix: usize) -> Tile {
    ed.world().get_tile(&at(room, iy, ix)).unwrap()
}

#[test]
fn fresh_session() {
    let ed = Editor::new();
    assert!(ed.world().rooms.is_empty());
    assert_eq!(ed.room(), None);
    assert_eq!(ed.focus(), None);
    assert_eq!(ed.selection1(), None);
    assert_eq!(ed.selection2(), None);
    assert_eq!(ed.tool(), Tool::Nothing);
    assert_eq!(ed.info(), "");
    assert_eq!(ed.message(), "");
    assert_eq!(ed.rainbow_index(), 0);
    assert!(!ed.delete_safety());
    assert_eq!(VIEW, 48);
}

#[test]
fn rooms_get_the_next_id() {
    let mut ed = Editor::new();
    assert_eq!(ed.add_room(), Some(0));
    assert_eq!(ed.add_room(), Some(1));
    assert_eq!(ed.room(), Some(1));
    assert_eq!(ed.world().get_room(1).dims(), (48, 48));
    assert_eq!(ed.world().get_room(1).name, "Room 1");
    let mut world = World::new();
    world.insert_room(mazegame::room::Room::empty(usize::MAX, 1, 1));
    ed.set_world(world);
    assert_eq!(ed.add_room(), None);
    assert_eq!(ed.world().room_list(), vec![usize::MAX]);
    assert_eq!(ed.focus(), None);
}

#[test]
fn edits_are_taken_back_and_put_again() {
    let mut ed = with_room();
    ed.edit(2, 3, Tile::Brick);
    ed.edit(2, 3, door(0));
    ed.edit(4, 4, door(0));
    assert_eq!(tile(&ed, 0, 2, 3), door(0));
    assert_eq!(tile(&ed, 0, 4, 4), door(1));
    ed.undo();
    assert_eq!(tile(&ed, 0, 4, 4), Tile::Empty);
    ed.undo();
    assert_eq!(tile(&ed, 0, 2, 3), Tile::Brick);
    ed.undo();
    assert_eq!(tile(&ed, 0, 2, 3), Tile::Empty);
    ed.undo();
    assert_eq!(tile(&ed, 0, 2, 3), Tile::Empty);
    ed.redo();
    assert_eq!(tile(&ed, 0, 2, 3), Tile::Brick);
    ed.redo();
    assert_eq!(tile(&ed, 0, 2, 3), door(0));
    ed.redo();
    assert_eq!(tile(&ed, 0, 4, 4), door(1));
    ed.redo();
    assert_eq!(tile(&ed, 0, 4, 4), door(1));
    assert!(ed.world().check());
}

#[test]
fn each_room_has_its_own_history() {
    let mut ed = Editor::new();
    ed.add_room();
    ed.edit(0, 0, Tile::Brick);
    ed.add_room();
    ed.edit(0, 0, Tile::Grass);
    ed.undo();
    ed.undo();
    assert_eq!(tile(&ed, 1, 0, 0), Tile::Empty);
    assert_eq!(tile(&ed, 0, 0, 0), Tile::Brick);
    ed.goto_room(0);
    ed.undo();
    assert_eq!(tile(&ed, 0, 0, 0), Tile::Empty);
    ed.goto_room(7);
    assert_eq!(ed.room(), Some(0));
}

#[test]
fn edits_outside_the_room_do_nothing() {
    let mut ed = with_room();
    ed.edit(48, 0, Tile::Brick);
    ed.edit(0, 48, Tile::Brick);
    ed.undo();
    assert!(ed.world().get_room(0).map.as_slice().iter().all(|t| *t == Tile::Empty));
    let mut none = Editor::new();
    none.edit(0, 0, Tile::Brick);
    none.undo();
    assert_eq!(none.info(), "No room");
    none.set_room(Some(3));
    none.redo();
    assert_eq!(none.info(), "No room");
}

#[test]
fn pressing_places_once_per_tile() {
    let mut ed = with_room();
    ed.set_tool(Tool::Place(door(0)));
    ed.press(1, 1);
    ed.press(1, 1);
    ed.press(1, 2);
    assert_eq!(tile(&ed, 0, 1, 1), door(0));
    assert_eq!(tile(&ed, 0, 1, 2), door(1));
    ed.set_tool(Tool::Place(door(1)));
    ed.press(1, 2);
    assert_eq!(tile(&ed, 0, 1, 2), door(1));
    ed.press(1, 1);
    assert_eq!(tile(&ed, 0, 1, 1), door(2));
    ed.press(1, 1);
    assert_eq!(tile(&ed, 0, 1, 1), door(2));
    ed.release();
    ed.press(1, 1);
    assert_eq!(tile(&ed, 0, 1, 1), door(2));
    ed.undo();
    assert_eq!(tile(&ed, 0, 1, 1), door(2));
    ed.undo();
    assert_eq!(tile(&ed, 0, 1, 1), door(0));
    ed.undo();
    assert_eq!(tile(&ed, 0, 1, 2), Tile::Empty);
}

#[test]
fn pressing_with_the_sky_tool() {
    let mut ed = with_room();
    ed.set_tool(Tool::PlaceSky);
    for ix in 0..6 {
        ed.press(0, ix);
    }
    let looks: Vec<Tile> = (0..6).map(|ix| tile(&ed, 0, 0, ix)).collect();
    let sky = |i| Tile::Sky(Random { i });
    assert_eq!(looks, vec![sky(0), sky(2), sky(1), sky(16), sky(17), sky(19)]);
}

#[test]
fn looking_follows_a_door() {
    let mut ed = with_room();
    ed.edit(0, 0, Tile::Door(Door { id: 0, target: Some(Target { room: 5, door: 1 }), key: None, locked: false }));
    ed.edit(0, 1, door(1));
    ed.press(0, 1);
    assert_eq!(ed.take_goto(), None);
    ed.press(0, 0);
    assert_eq!(ed.take_goto(), Some(5));
    assert_eq!(ed.take_goto(), None);
    assert_eq!(tile(&ed, 0, 0, 1), door(1));
}

#[test]
fn hovering_describes_the_tile() {
    let mut ed = with_room();
    ed.edit(3, 12, Tile::Object(Object::Eggplant));
    ed.hover(3, 12);
    assert_eq!(ed.info(), "(03,12) AN EGGPLANT");
    ed.edit(3, 12, Tile::Brick);
    ed.hover(3, 12);
    assert_eq!(ed.info(), "(03,12) AN EGGPLANT");
    ed.hover(0, 0);
    assert_eq!(ed.info(), "(00,00) Nothing");
    ed.set_tool(Tool::Place(Tile::Grass));
    ed.press(3, 12);
    ed.hover(0, 0);
    assert_eq!(ed.info(), "(00,00) Nothing");
    ed.hover(100, 7);
    assert_eq!(ed.info(), "(100,07) Nothing");
    ed.hover(3, 12);
    assert_eq!(ed.info(), "(03,12) Grass");
    ed.set_room(Some(0));
    assert_eq!(ed.info(), "");
}

#[test]
fn selecting_toggles() {
    let mut ed = with_room();
    ed.select(1, 2, false);
    assert_eq!(ed.selection1(), Some(at(0, 1, 2)));
    assert_eq!(ed.selection2(), None);
    ed.select(3, 4, true);
    assert_eq!(ed.selection2(), Some(at(0, 3, 4)));
    ed.select(1, 2, false);
    assert_eq!(ed.selection1(), None);
    ed.select(5, 5, true);
    assert_eq!(ed.selection2(), Some(at(0, 5, 5)));
    ed.select(48, 0, false);
    ed.select(0, 48, true);
    assert_eq!(ed.selection1(), None);
    assert_eq!(ed.selection2(), Some(at(0, 5, 5)));
    assert_eq!(Editor::cell_in_view(3, 47), Some((3, 47)));
    assert_eq!(Editor::cell_in_view(-1, 0), None);
    assert_eq!(Editor::cell_in_view(0, 48), None);
}

#[test]
fn connecting_the_selected_doors() {
    let mut ed = Editor::new();
    ed.add_room();
    ed.edit(1, 1, door(4));
    ed.select(1, 1, false);
    ed.connect();
    assert_eq!(ed.message(), "");
    ed.add_room();
    ed.edit(2, 2, door(9));
    ed.edit(3, 3, Tile::Brick);
    ed.select(3, 3, true);
    ed.connect();
    assert_eq!(ed.message(), "You need to select two unconnected doors!");
    ed.select(2, 2, true);
    ed.connect();
    assert_eq!(ed.message(), "Doors connected");
    assert_eq!(ed.world().door(0, 4).target, Some(Target { room: 1, door: 9 }));
    assert_eq!(ed.world().door(1, 9).target, Some(Target { room: 0, door: 4 }));
    ed.say("");
    ed.connect();
    assert_eq!(ed.message(), "You need to select two unconnected doors!");
    assert_eq!(ed.world().door(0, 4).target, Some(Target { room: 1, door: 9 }));
    assert!(ed.world().check());
}

#[test]
fn locking_a_door_with_the_selected_object() {
    let mut ed = with_room();
    ed.edit(0, 0, door(2));
    ed.edit(0, 1, Tile::Object(Object::Tomato));
    ed.udw();
    assert_eq!(ed.message(), "Select door in green and object in red");
    ed.say("");
    ed.select(0, 0, false);
    ed.select(0, 1, true);
    ed.udw();
    assert_eq!(ed.message(), "");
    assert_eq!(
        ed.world().door(0, 2),
        Door { id: 2, target: None, key: Some(Object::Tomato), locked: true }
    );
    ed.select(0, 0, true);
    ed.udw();
    assert_eq!(ed.message(), "Select door in green and object in red");
}

#[test]
fn setting_the_start() {
    let mut ed = with_room();
    ed.set_start();
    assert_eq!(ed.message(), "Select starting position in green");
    assert_eq!(ed.world().start, None);
    ed.select(7, 8, false);
    ed.set_start();
    assert_eq!(ed.world().start, Some(at(0, 7, 8)));
}

#[test]
fn cropping_to_the_selection() {
    let mut ed = with_room();
    ed.crop();
    assert_eq!(ed.message(), "Select two corners");
    ed.edit(5, 6, door(3));
    ed.edit(1, 1, door(4));
    ed.select(7, 4, false);
    ed.crop();
    assert_eq!(ed.message(), "Select two corners");
    ed.select(4, 9, true);
    ed.crop();
    assert_eq!(ed.message(), "Room cropped to 4 × 6");
    let room = ed.world().get_room(0);
    assert_eq!(room.dims(), (4, 6));
    assert_eq!(room.locate_door(3), Some((1, 2)));
    assert_eq!(room.locate_door(4), None);
    ed.add_room();
    ed.select(0, 0, false);
    ed.crop();
    assert_eq!(ed.message(), "Select red and green corners in the same room");
    ed.confirm_delete();
    ed.select(0, 0, false);
    ed.select(4, 9, true);
    assert_eq!(ed.selection1(), Some(at(1, 0, 0)));
}

#[test]
fn deleting_needs_confirmation() {
    let mut ed = with_room();
    ed.add_room();
    ed.request_delete();
    assert!(ed.delete_safety());
    ed.cancel_delete();
    assert!(!ed.delete_safety());
    assert_eq!(ed.world().room_list(), vec![0, 1]);
    ed.request_delete();
    ed.pick_room(0);
    assert!(!ed.delete_safety());
    ed.request_delete();
    ed.confirm_delete();
    assert!(!ed.delete_safety());
    assert_eq!(ed.world().room_list(), vec![1]);
    assert_eq!(ed.room(), None);
    ed.confirm_delete();
    assert_eq!(ed.world().room_list(), vec![1]);
}

#[test]
fn animation_moves_the_rainbow_and_the_room() {
    let mut ed = with_room();
    ed.edit(0, 0, Tile::Water(Periodic::new(8, 8)));
    for n in 1..=7 {
        ed.animate();
        assert_eq!(ed.rainbow_index(), n % 6);
        assert_eq!(tile(&ed, 0, 0, 0), Tile::Water(Periodic { i: 0, m: 8, j: n as u16, n: 8 }));
    }
}

#[test]
fn keys_pick_tools() {
    let mut ed = with_room();
    ed.key("#");
    assert_eq!(ed.tool(), Tool::Place(Tile::Brick));
    ed.key("^");
    assert_eq!(ed.tool(), Tool::PlaceSky);
    ed.key("D");
    assert_eq!(ed.tool(), Tool::Place(door(0)));
    ed.key("5");
    ed.key("H");
    ed.key("?");
    ed.key("##");
    ed.key("");
    assert_eq!(ed.tool(), Tool::Place(door(0)));
    ed.press(0, 0);
    ed.key("u");
    assert_eq!(tile(&ed, 0, 0, 0), Tile::Empty);
    ed.key("r");
    assert_eq!(tile(&ed, 0, 0, 0), door(0));
    ed.key("i");
    assert_eq!(ed.tool(), Tool::Nothing);
}

#[test]
fn palette() {
    assert_eq!(palette_keys(), "i %#~.@*WFqwasmAx^DKTICSctebR");
    assert_eq!(palette_keys().chars().count(), 29);
    for c in palette_keys().chars() {
        assert!(tool_for_key(c).is_some());
    }
    assert_eq!(tool_for_key(' '), Some(Tool::Place(Tile::Empty)));
    assert_eq!(tool_for_key('~'), Some(Tool::Place(Tile::Water(Periodic { i: 0, m: 8, j: 0, n: 8 }))));
    assert_eq!(tool_for_key('F'), Some(Tool::Place(Tile::Fire(Periodic { i: 0, m: 3, j: 0, n: 2 }))));
    assert_eq!(tool_for_key('q'), Some(Tool::Place(Tile::MetalRamp(Corner::NW))));
    assert_eq!(tool_for_key('K'), Some(Tool::Place(Tile::Object(Object::Key))));
    assert_eq!(tool_for_key('R'), Some(Tool::Place(Tile::Rainbow)));
    assert_eq!(tool_for_key('u'), None);
    assert_eq!(tool_for_key('0'), None);
}

#[test]
fn renaming_the_room_in_focus() {
    let mut ed = with_room();
    ed.rename_room("Cellar");
    assert_eq!(ed.world().get_room(0).name, "Cellar");
    ed.set_room(None);
    ed.rename_room("Attic");
    assert_eq!(ed.world().get_room(0).name, "Cellar");
}
