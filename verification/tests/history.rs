use mazegame::object::Object;
use mazegame::tiles::Tile;
use mazegame::undo::{Edit, Undo, HISTORY_LIMIT};

fn edit(n: usize) -> Edit {
    Edit { iy: n, ix: n + 1, old_tile: Tile::Empty, new_tile: Tile::Object(Object::Coin) }
}

#[test]
fn limit_is_fifty() {
    assert_eq!(HISTORY_LIMIT, 50);
}

#[test]
fn nothing_to_take_back() {
    let mut log = Undo::new();
    assert_eq!(log.undo(), None);
    assert_eq!(log.redo(), None);
}

#[test]
fn edit_then_undo_then_redo() {
    let mut log = Undo::new();
    let e = Edit { iy: 3, ix: 4, old_tile: Tile::Brick, new_tile: Tile::Grass };
    log.edit(e);
    assert_eq!(log.redo(), None);
    assert_eq!(log.undo(), Some(e));
    assert_eq!(log.undo(), None);
    assert_eq!(log.redo(), Some(e));
    assert_eq!(log.redo(), None);
    assert_eq!(log.undo(), Some(e));
    assert_eq!(e.old_tile, Tile::Brick);
    assert_eq!(e.new_tile, Tile::Grass);
}

#[test]
fn edits_come_back_youngest_first() {
    let mut log = Undo::new();
    for n in 0..5 {
        log.edit(edit(n));
    }
    assert_eq!(log.undo(), Some(edit(4)));
    assert_eq!(log.undo(), Some(edit(3)));
    assert_eq!(log.redo(), Some(edit(3)));
    assert_eq!(log.redo(), Some(edit(4)));
    assert_eq!(log.redo(), None);
}

#[test]
fn the_oldest_edits_are_dropped() {
    let mut log = Undo::new();
    for n in 0..120 {
        log.edit(edit(n));
    }
    for n in (70..120).rev() {
        assert_eq!(log.undo(), Some(edit(n)));
    }
    assert_eq!(log.undo(), None);
    for n in 70..120 {
        assert_eq!(log.redo(), Some(edit(n)));
    }
    assert_eq!(log.redo(), None);
}

#[test]
fn exactly_fifty_are_kept() {
    let mut log = Undo::new();
    for n in 0..51 {
        log.edit(edit(n));
    }
    let mut back = Vec::new();
    while let Some(e) = log.undo() {
        back.push(e.iy);
    }
    assert_eq!(back, (1..51).rev().collect::<Vec<usize>>());
}

#[test]
fn a_fresh_edit_leaves_the_redo_log_alone() {
    let mut log = Undo::new();
    log.edit(edit(1));
    log.edit(edit(2));
    assert_eq!(log.undo(), Some(edit(2)));
    log.edit(edit(3));
    assert_eq!(log.redo(), Some(edit(2)));
    assert_eq!(log.undo(), Some(edit(2)));
    assert_eq!(log.undo(), Some(edit(3)));
    assert_eq!(log.undo(), Some(edit(1)));
    assert_eq!(log.undo(), None);
}

#[test]
fn the_redo_log_is_bounded_too() {
    let mut log = Undo::new();
    for n in 0..50 {
        log.edit(edit(n));
    }
    for _ in 0..50 {
        log.undo();
    }
    for n in 50..100 {
        log.edit(edit(n));
    }
    for _ in 0..50 {
        log.undo();
    }
    let mut again = Vec::new();
    while let Some(e) = log.redo() {
        again.push(e.iy);
    }
    assert_eq!(again, (50..100).collect::<Vec<usize>>());
}

#[test]
fn a_history_with_another_limit() {
    let mut log = Undo::with_limit(2);
    for n in 0..5 {
        log.edit(edit(n));
    }
    assert_eq!(log.undo(), Some(edit(4)));
    assert_eq!(log.undo(), Some(edit(3)));
    assert_eq!(log.undo(), None);
    let mut none = Undo::with_limit(0);
    none.edit(edit(1));
    assert_eq!(none.undo(), None);
}
