//! A room: a grid of tiles and an index of where its doors stand.
//!
//! The index is kept in step with the grid. It is *sound* when every entry
//! points at a door tile that carries the entry's id, and *complete* when
//! every door tile of the grid is entered under its own id at its own
//! coordinate. Editing through `modify` keeps both.

use std::collections::BTreeMap;
use vstd::prelude::*;
use vstd::std_specs::btree::{axiom_spec_keys_iter, spec_keys_iter};
use vstd::std_specs::iter::IteratorSpec;
use vstd::string::StringExecFns;
use crate::a2::{A2, GridView};
use crate::keys::{last_key, lemma_nonempty_has_last, spec_last_key};
use crate::text::{decimal, spec_decimal};
use crate::tiles::{Door, Tile};

verus! {

/// The door index as seen by contracts: door id to `(row, col)`.
pub type DoorIndex = Map<usize, (usize, usize)>;

/// `(r1, c1)` comes strictly before `(r2, c2)` when cells are read row by row.
pub open spec fn before(r1: int, c1: int, r2: int, c2: int) -> bool {
    r1 < r2 || (r1 == r2 && c1 < c2)
}

/// Some cell read before `(i, j)` holds a door with this id.
pub open spec fn has_door_before(map: GridView<Tile>, id: usize, i: int, j: int) -> bool {
    exists|r: int, c: int|
        map.in_bounds(r, c) && before(r, c, i, j) && #[trigger] map.at(r, c).is_door_with_id(id)
}

/// Of the cells read before `(i, j)`, `(r, c)` is the last to hold a door
/// with this id.
pub open spec fn last_door_before(map: GridView<Tile>, id: usize, r: int, c: int, i: int, j: int) -> bool {
    &&& map.in_bounds(r, c)
    &&& before(r, c, i, j)
    &&& map.at(r, c).is_door_with_id(id)
    &&& forall|r2: int, c2: int|
        map.in_bounds(r2, c2) && before(r2, c2, i, j) && #[trigger] map.at(r2, c2).is_door_with_id(
            id,
        ) ==> !before(r, c, r2, c2)
}

/// `doors` is what a row-by-row scan of the cells before `(i, j)` records: an
/// entry for every door id met, pointing at the last cell that carried it.
pub open spec fn indexes_before(doors: DoorIndex, map: GridView<Tile>, i: int, j: int) -> bool {
    forall|id: usize|
        (#[trigger] doors.contains_key(id) <==> has_door_before(map, id, i, j)) && (
        doors.contains_key(id) ==> last_door_before(
            map,
            id,
            doors[id].0 as int,
            doors[id].1 as int,
            i,
            j,
        ))
}

/// `doors` is the index that a scan of the whole grid derives.
pub open spec fn indexes(doors: DoorIndex, map: GridView<Tile>) -> bool {
    indexes_before(doors, map, map.rows, 0)
}

/// No two cells of the grid hold doors with the same id.
pub open spec fn door_ids_distinct(map: GridView<Tile>) -> bool {
    forall|r1: int, c1: int, r2: int, c2: int|
        map.in_bounds(r1, c1) && map.in_bounds(r2, c2) && (#[trigger] map.at(r1, c1) matches Tile::Door(
            d1,
        ) && #[trigger] map.at(r2, c2) matches Tile::Door(d2) && d1.id == d2.id) ==> r1 == r2 && c1
            == c2
}

/// The id under which a door asking for `id` is entered into `doors`: its own
/// while that is free, else one above the largest id in use.
pub open spec fn free_id(doors: DoorIndex, id: usize) -> int {
    if doors.contains_key(id) {
        match spec_last_key(doors) {
            Some(k) => k + 1,
            None => 0,
        }
    } else {
        id as int
    }
}

/// Reading one more cell extends the scan's index by that cell: a door
/// enters under its id, replacing an earlier door of the same id.
pub proof fn lemma_index_step(doors: DoorIndex, map: GridView<Tile>, i: int, j: int)
    requires
        map.wf(),
        map.in_bounds(i, j),
        map.rows <= usize::MAX,
        map.cols <= usize::MAX,
        indexes_before(doors, map, i, j),
    ensures
        indexes_before(
            match map.at(i, j) {
                Tile::Door(d) => doors.insert(d.id, (i as usize, j as usize)),
                _ => doors,
            },
            map,
            i,
            j + 1,
        ),
{
    let after = match map.at(i, j) {
        Tile::Door(d) => doors.insert(d.id, (i as usize, j as usize)),
        _ => doors,
    };
    assert forall|id: usize|
        (#[trigger] after.contains_key(id) <==> has_door_before(map, id, i, j + 1)) && (
        after.contains_key(id) ==> last_door_before(
            map,
            id,
            after[id].0 as int,
            after[id].1 as int,
            i,
            j + 1,
        )) by {
        if map.at(i, j).is_door_with_id(id) {
            assert(map.in_bounds(i, j) && before(i, j, i, j + 1) && map.at(i, j).is_door_with_id(id));
        } else {
            assert(after.contains_key(id) == doors.contains_key(id));
            if has_door_before(map, id, i, j) {
                let (r, c) = choose|r: int, c: int|
                    map.in_bounds(r, c) && before(r, c, i, j) && #[trigger] map.at(
                        r,
                        c,
                    ).is_door_with_id(id);
                assert(map.in_bounds(r, c) && before(r, c, i, j + 1) && map.at(r, c).is_door_with_id(
                    id,
                ));
            }
            if has_door_before(map, id, i, j + 1) {
                let (r, c) = choose|r: int, c: int|
                    map.in_bounds(r, c) && before(r, c, i, j + 1) && #[trigger] map.at(
                        r,
                        c,
                    ).is_door_with_id(id);
                assert(map.in_bounds(r, c) && before(r, c, i, j) && map.at(r, c).is_door_with_id(id));
            }
            if after.contains_key(id) {
                assert(doors.contains_key(id));
                assert(last_door_before(map, id, doors[id].0 as int, doors[id].1 as int, i, j));
            }
        }
    }
}

/// The cells read before the end of row `i` are those read before the start
/// of row `i + 1`.
pub proof fn lemma_index_row(doors: DoorIndex, map: GridView<Tile>, i: int)
    requires
        map.wf(),
        0 <= i < map.rows,
        indexes_before(doors, map, i, map.cols),
    ensures
        indexes_before(doors, map, i + 1, 0),
{
    let n = map.cols;
    assert forall|id: usize|
        (#[trigger] doors.contains_key(id) <==> has_door_before(map, id, i + 1, 0)) && (
        doors.contains_key(id) ==> last_door_before(
            map,
            id,
            doors[id].0 as int,
            doors[id].1 as int,
            i + 1,
            0,
        )) by {
        if has_door_before(map, id, i, n) {
            let (r, c) = choose|r: int, c: int|
                map.in_bounds(r, c) && before(r, c, i, n) && #[trigger] map.at(r, c).is_door_with_id(
                    id,
                );
            assert(map.in_bounds(r, c) && before(r, c, i + 1, 0) && map.at(r, c).is_door_with_id(id));
        }
        if has_door_before(map, id, i + 1, 0) {
            let (r, c) = choose|r: int, c: int|
                map.in_bounds(r, c) && before(r, c, i + 1, 0) && #[trigger] map.at(
                    r,
                    c,
                ).is_door_with_id(id);
            assert(map.in_bounds(r, c) && before(r, c, i, n) && map.at(r, c).is_door_with_id(id));
        }
        if doors.contains_key(id) {
            assert(last_door_before(map, id, doors[id].0 as int, doors[id].1 as int, i, n));
        }
    }
}

/// A grid has one index: two maps that both record a scan of it are equal.
pub proof fn lemma_index_unique(a: DoorIndex, b: DoorIndex, map: GridView<Tile>)
    requires
        indexes(a, map),
        indexes(b, map),
    ensures
        a == b,
{
    assert forall|id: usize| a.contains_key(id) == b.contains_key(id) by {}
    assert forall|id: usize| #[trigger] a.contains_key(id) implies a[id] == b[id] by {
        assert(b.contains_key(id));
        let i = map.rows;
        assert(last_door_before(map, id, a[id].0 as int, a[id].1 as int, i, 0));
        assert(last_door_before(map, id, b[id].0 as int, b[id].1 as int, i, 0));
        assert(map.at(a[id].0 as int, a[id].1 as int).is_door_with_id(id));
        assert(map.at(b[id].0 as int, b[id].1 as int).is_door_with_id(id));
    }
    assert(a =~= b);
}

/// The mathematical content of a room.
pub struct RoomView {
    pub id: usize,
    pub rows: usize,
    pub cols: usize,
    pub map: GridView<Tile>,
    pub doors: DoorIndex,
    pub name: Seq<char>,
}

impl RoomView {
    /// The entry for `id` points at a door tile that carries `id`.
    pub open spec fn entry_sound(self, id: usize) -> bool {
        self.map.in_bounds(self.doors[id].0 as int, self.doors[id].1 as int) && self.map.at(
            self.doors[id].0 as int,
            self.doors[id].1 as int,
        ).is_door_with_id(id)
    }

    /// Every entry of the index points at a door tile with the entry's id.
    pub open spec fn index_sound(self) -> bool {
        forall|id: usize| #[trigger] self.doors.contains_key(id) ==> self.entry_sound(id)
    }

    /// Every door tile of the grid is entered under its id, at its coordinate.
    pub open spec fn index_complete(self) -> bool {
        forall|r: int, c: int|
            self.map.in_bounds(r, c) ==> (#[trigger] self.map.at(r, c) matches Tile::Door(d)
                ==> self.doors.contains_key(d.id) && self.doors[d.id] == (r as usize, c as usize))
    }

    /// The recorded extent is the grid's, and the index is sound.
    pub open spec fn wf(self) -> bool {
        &&& self.map.wf()
        &&& self.map.rows == self.rows
        &&& self.map.cols == self.cols
        &&& self.index_sound()
    }

    /// A room of empty tiles with no doors, named after its id.
    pub open spec fn empty(id: usize, rows: usize, cols: usize) -> RoomView {
        RoomView {
            id,
            rows,
            cols,
            map: GridView::filled(rows as int, cols as int, Tile::Empty),
            doors: Map::empty(),
            name: "Room "@ + spec_decimal(id as nat),
        }
    }

    /// The index once the door standing at `(iy, ix)`, if there is one, has
    /// been forgotten.
    pub open spec fn doors_without(self, iy: int, ix: int) -> DoorIndex {
        match self.map.at(iy, ix) {
            Tile::Door(d) => self.doors.remove(d.id),
            _ => self.doors,
        }
    }

    /// The tile that ends up at `(iy, ix)` when `tile` is placed there: `tile`
    /// itself, but a door is renumbered when its id is taken by a door
    /// elsewhere in the room.
    pub open spec fn placed(self, iy: int, ix: int, tile: Tile) -> Tile {
        match tile {
            Tile::Door(d) => Tile::Door(
                Door { id: free_id(self.doors_without(iy, ix), d.id) as usize, ..d },
            ),
            _ => tile,
        }
    }

    /// Placing `tile` at `(iy, ix)` is possible: the cell exists, and a door
    /// that has to be renumbered still gets an id the machine can hold.
    pub open spec fn can_modify(self, iy: int, ix: int, tile: Tile) -> bool {
        &&& self.map.in_bounds(iy, ix)
        &&& tile matches Tile::Door(d) ==> free_id(self.doors_without(iy, ix), d.id) <= usize::MAX
    }

    /// The room after `tile` has been placed at `(iy, ix)`.
    pub open spec fn modify(self, iy: int, ix: int, tile: Tile) -> RoomView {
        let t = self.placed(iy, ix, tile);
        let doors1 = self.doors_without(iy, ix);
        RoomView {
            map: self.map.set(iy, ix, t),
            doors: match t {
                Tile::Door(d) => doors1.insert(d.id, (iy as usize, ix as usize)),
                _ => doors1,
            },
            ..self
        }
    }

    /// The room one animation tick later.
    pub open spec fn next(self) -> RoomView {
        RoomView {
            map: GridView {
                cells: Seq::new(
                    self.map.rows as nat,
                    |i: int| Seq::new(self.map.cols as nat, |j: int| self.map.cells[i][j].spec_next()),
                ),
                ..self.map
            },
            ..self
        }
    }

    /// The door that the index enters under `id`.
    pub open spec fn door(self, id: usize) -> Door {
        self.map.at(self.doors[id].0 as int, self.doors[id].1 as int).door()
    }

    /// The door entered under `id` replaced by `d`, the index left alone.
    pub open spec fn with_door(self, id: usize, d: Door) -> RoomView {
        self.with_tile(self.doors[id].0 as int, self.doors[id].1 as int, Tile::Door(d))
    }

    /// Writing `tile` over the cell at `(iy, ix)` leaves the doors where they
    /// are: a door is only replaced by a door of the same id, and anything
    /// else only by something that is not a door.
    pub open spec fn keeps_doors(self, iy: int, ix: int, tile: Tile) -> bool {
        &&& self.map.in_bounds(iy, ix)
        &&& match self.map.at(iy, ix) {
            Tile::Door(d) => tile.is_door_with_id(d.id),
            _ => !(tile is Door),
        }
    }

    /// The cell at `(iy, ix)` overwritten, the index left alone.
    pub open spec fn with_tile(self, iy: int, ix: int, tile: Tile) -> RoomView {
        RoomView { map: self.map.set(iy, ix, tile), ..self }
    }

    /// The `ny` by `nx` window of the grid whose corner is `(iy0, ix0)`. Where
    /// the window reaches past the grid it shows the grid's sentinel; the
    /// window's own sentinel is the empty tile.
    pub open spec fn window(self, iy0: int, ny: int, ix0: int, nx: int) -> GridView<Tile> {
        GridView {
            rows: ny,
            cols: nx,
            cells: Seq::new(
                ny as nat,
                |i: int| Seq::new(nx as nat, |j: int| self.map.at(iy0 + i, ix0 + j)),
            ),
            out: Tile::Empty,
        }
    }

    /// The window can be cut out: it lies inside the grid, or else its extent
    /// fits the machine's index types.
    pub open spec fn can_crop(self, iy0: int, ny: int, ix0: int, nx: int) -> bool {
        ||| (iy0 + ny <= self.map.rows && ix0 + nx <= self.map.cols)
        ||| (iy0 + ny <= usize::MAX && ix0 + nx <= usize::MAX && ny <= isize::MAX && nx
            <= isize::MAX && ny * nx <= isize::MAX)
    }

    /// The room cut down to the `ny` by `nx` window whose corner is
    /// `(iy0, ix0)`, with the index that a scan of the window derives.
    pub open spec fn crop(self, iy0: int, ny: int, ix0: int, nx: int) -> RoomView {
        RoomView {
            rows: ny as usize,
            cols: nx as usize,
            map: self.window(iy0, ny, ix0, nx),
            doors: choose|m: DoorIndex| indexes(m, self.window(iy0, ny, ix0, nx)),
            ..self
        }
    }

    /// A room that has the window for its grid and an index that a scan of
    /// the window derives is the cropped room.
    pub proof fn lemma_crop_is(self, iy0: int, ny: int, ix0: int, nx: int, after: RoomView)
        requires
            after.id == self.id,
            after.name == self.name,
            after.rows == ny,
            after.cols == nx,
            after.map == self.window(iy0, ny, ix0, nx),
            indexes(after.doors, after.map),
        ensures
            after == self.crop(iy0, ny, ix0, nx),
    {
        let m = choose|m: DoorIndex| indexes(m, self.window(iy0, ny, ix0, nx));
        lemma_index_unique(after.doors, m, after.map);
    }

    /// Placing a tile keeps a sound index sound and a complete index complete.
    pub proof fn lemma_modify_keeps_index(self, iy: int, ix: int, tile: Tile)
        requires
            self.wf(),
            self.can_modify(iy, ix, tile),
        ensures
            self.modify(iy, ix, tile).wf(),
            self.index_complete() ==> self.modify(iy, ix, tile).index_complete(),
            self.modify(iy, ix, tile).map.at(iy, ix) == self.placed(iy, ix, tile),
    {
        let after = self.modify(iy, ix, tile);
        let t = self.placed(iy, ix, tile);
        let doors1 = self.doors_without(iy, ix);
        self.map.lemma_set_at(iy, ix, t);
        assert(doors1.dom().subset_of(self.doors.dom()));
        // An entry that survives does not point at the cell being overwritten.
        assert forall|id: usize| #[trigger] doors1.contains_key(id) implies !(self.doors[id].0 == iy
            && self.doors[id].1 == ix) && doors1[id] == self.doors[id] by {
            assert(self.doors.contains_key(id));
        }
        // A renumbered door gets an id that no surviving entry carries.
        if let Tile::Door(d) = tile {
            if doors1.contains_key(d.id) {
                lemma_nonempty_has_last(doors1, d.id);
            }
        }
        assert forall|id: usize| #[trigger] after.doors.contains_key(id) implies after.map.in_bounds(
            after.doors[id].0 as int,
            after.doors[id].1 as int,
        ) && after.map.at(after.doors[id].0 as int, after.doors[id].1 as int).is_door_with_id(id) by {
            if t matches Tile::Door(d) && d.id == id {
            } else {
                assert(doors1.contains_key(id));
            }
        }
        if self.index_complete() {
            assert forall|r: int, c: int| after.map.in_bounds(r, c) implies (#[trigger] after.map.at(
                r,
                c,
            ) matches Tile::Door(d) ==> after.doors.contains_key(d.id) && after.doors[d.id] == (
                r as usize,
                c as usize,
            )) by {
                if r == iy && c == ix {
                } else if let Tile::Door(d) = after.map.at(r, c) {
                    assert(self.map.at(r, c) == Tile::Door(d));
                    assert(self.doors.contains_key(d.id) && self.doors[d.id] == (r as usize, c as usize));
                    assert(self.map.in_bounds(iy, ix));
                    if let Tile::Door(d0) = self.map.at(iy, ix) {
                        assert(self.doors[d0.id] == (iy as usize, ix as usize));
                    }
                    assert(doors1.contains_key(d.id));
                }
            }
        }
    }

    /// A door can always be placed over a door of the same id, and over an
    /// empty cell or anything else when its id is free.
    pub proof fn lemma_same_id_fits(self, iy: int, ix: int, tile: Tile)
        requires
            self.map.in_bounds(iy, ix),
            tile matches Tile::Door(d) ==> self.map.at(iy, ix).is_door_with_id(d.id),
        ensures
            self.can_modify(iy, ix, tile),
    {
    }

    /// Placing a tile and then placing back what stood there before restores
    /// the room exactly, when the index mirrors the grid.
    pub proof fn lemma_modify_back(self, iy: int, ix: int, tile: Tile)
        requires
            self.wf(),
            self.index_complete(),
            self.can_modify(iy, ix, tile),
        ensures
            self.modify(iy, ix, tile).can_modify(iy, ix, self.map.at(iy, ix)),
            self.modify(iy, ix, tile).modify(iy, ix, self.map.at(iy, ix)) == self,
    {
        let before = self.map.at(iy, ix);
        let mid = self.modify(iy, ix, tile);
        let t = self.placed(iy, ix, tile);
        let doors1 = self.doors_without(iy, ix);
        self.lemma_modify_keeps_index(iy, ix, tile);
        self.map.lemma_set_at(iy, ix, t);
        if let Tile::Door(d) = tile {
            if doors1.contains_key(d.id) {
                lemma_nonempty_has_last(doors1, d.id);
            }
        }
        assert(mid.doors_without(iy, ix) =~= doors1);
        let back = mid.modify(iy, ix, before);
        assert(mid.placed(iy, ix, before) == before);
        mid.map.lemma_set_at(iy, ix, before);
        assert(back.doors =~= self.doors);
        back.map.lemma_ext_equal(self.map);
    }

    /// Placing the tile that a placement wrote gives what that placement
    /// gave: a renumbered door keeps the id it was given.
    pub proof fn lemma_modify_again(self, iy: int, ix: int, tile: Tile)
        requires
            self.wf(),
            self.can_modify(iy, ix, tile),
        ensures
            self.can_modify(iy, ix, self.placed(iy, ix, tile)),
            self.modify(iy, ix, self.placed(iy, ix, tile)) == self.modify(iy, ix, tile),
    {
        let doors1 = self.doors_without(iy, ix);
        if let Tile::Door(d) = tile {
            if doors1.contains_key(d.id) {
                lemma_nonempty_has_last(doors1, d.id);
            }
        }
    }

    /// Overwriting a cell in a way that leaves the doors where they are keeps
    /// the index in step with the grid.
    pub proof fn lemma_with_tile(self, iy: int, ix: int, tile: Tile)
        requires
            self.wf(),
            self.keeps_doors(iy, ix, tile),
        ensures
            self.with_tile(iy, ix, tile).wf(),
            self.index_complete() ==> self.with_tile(iy, ix, tile).index_complete(),
            self.with_tile(iy, ix, tile).map.at(iy, ix) == tile,
    {
        let after = self.with_tile(iy, ix, tile);
        self.map.lemma_set_at(iy, ix, tile);
        assert forall|k: usize| #[trigger] after.doors.contains_key(k) implies after.entry_sound(k) by {
            assert(self.entry_sound(k));
        }
    }

    /// Replacing an indexed door by a door of the same id keeps the index in
    /// step with the grid, and changes no other door.
    pub proof fn lemma_with_door(self, id: usize, d: Door)
        requires
            self.wf(),
            self.doors.contains_key(id),
            d.id == id,
        ensures
            self.with_door(id, d).wf(),
            self.index_complete() ==> self.with_door(id, d).index_complete(),
            self.with_door(id, d).door(id) == d,
            self.with_door(id, d).doors == self.doors,
            forall|other: usize|
                self.doors.contains_key(other) && other != id ==> #[trigger] self.with_door(
                    id,
                    d,
                ).door(other) == self.door(other),
    {
        let iy = self.doors[id].0 as int;
        let ix = self.doors[id].1 as int;
        let after = self.with_door(id, d);
        assert(self.entry_sound(id));
        self.map.lemma_set_at(iy, ix, Tile::Door(d));
        assert forall|k: usize| #[trigger] after.doors.contains_key(k) implies after.entry_sound(k) by {
            assert(self.entry_sound(k));
        }
        assert forall|other: usize| self.doors.contains_key(other) && other != id implies #[trigger] after.door(
            other,
        ) == self.door(other) by {
            assert(self.entry_sound(other));
        }
    }

    /// A complete and sound index means that no two doors share an id.
    pub proof fn lemma_complete_distinct(self)
        requires
            self.wf(),
            self.index_complete(),
        ensures
            door_ids_distinct(self.map),
    {
        assert forall|r1: int, c1: int, r2: int, c2: int|
            self.map.in_bounds(r1, c1) && self.map.in_bounds(r2, c2) && (#[trigger] self.map.at(
                r1,
                c1,
            ) matches Tile::Door(d1) && #[trigger] self.map.at(r2, c2) matches Tile::Door(d2)
                && d1.id == d2.id) implies r1 == r2 && c1 == c2 by {
            if let Tile::Door(d1) = self.map.at(r1, c1) {
                assert(self.doors[d1.id] == (r1 as usize, c1 as usize));
                assert(self.doors[d1.id] == (r2 as usize, c2 as usize));
            }
        }
    }

    /// A window that lies inside a room whose index mirrors its grid holds
    /// no two doors with the same id.
    pub proof fn lemma_window_distinct(self, iy0: int, ny: int, ix0: int, nx: int)
        requires
            self.wf(),
            self.index_complete(),
            0 <= iy0,
            0 <= ny,
            iy0 + ny <= self.rows,
            0 <= ix0,
            0 <= nx,
            ix0 + nx <= self.cols,
        ensures
            door_ids_distinct(self.window(iy0, ny, ix0, nx)),
    {
        let w = self.window(iy0, ny, ix0, nx);
        self.lemma_complete_distinct();
        assert forall|r1: int, c1: int, r2: int, c2: int|
            w.in_bounds(r1, c1) && w.in_bounds(r2, c2) && (#[trigger] w.at(r1, c1) matches Tile::Door(
                d1,
            ) && #[trigger] w.at(r2, c2) matches Tile::Door(d2) && d1.id == d2.id) implies r1 == r2
            && c1 == c2 by {
            assert(w.at(r1, c1) == self.map.at(iy0 + r1, ix0 + c1));
            assert(w.at(r2, c2) == self.map.at(iy0 + r2, ix0 + c2));
            assert(self.map.in_bounds(iy0 + r1, ix0 + c1));
            assert(self.map.in_bounds(iy0 + r2, ix0 + c2));
        }
    }

    /// Cutting a window out of a room whose index mirrors its grid keeps the
    /// doors inside the window, at their coordinates counted from the
    /// window's corner, and drops the doors outside it.
    pub proof fn lemma_crop_doors(self, iy0: int, ny: int, ix0: int, nx: int, doors: DoorIndex, id: usize)
        requires
            self.wf(),
            self.index_complete(),
            0 <= iy0,
            0 <= ny,
            iy0 + ny <= self.rows,
            0 <= ix0,
            0 <= nx,
            ix0 + nx <= self.cols,
            indexes(doors, self.window(iy0, ny, ix0, nx)),
        ensures
            doors.contains_key(id) <==> (self.doors.contains_key(id) && iy0 <= self.doors[id].0 < iy0
                + ny && ix0 <= self.doors[id].1 < ix0 + nx),
            doors.contains_key(id) ==> doors[id].0 == self.doors[id].0 - iy0 && doors[id].1
                == self.doors[id].1 - ix0,
    {
        let w = self.window(iy0, ny, ix0, nx);
        assert forall|r: int, c: int| w.in_bounds(r, c) implies #[trigger] w.at(r, c) == self.map.at(
            iy0 + r,
            ix0 + c,
        ) && self.map.in_bounds(iy0 + r, ix0 + c) by {}
        if doors.contains_key(id) {
            let r = doors[id].0 as int;
            let c = doors[id].1 as int;
            assert(last_door_before(w, id, r, c, w.rows, 0));
            assert(w.at(r, c) == self.map.at(iy0 + r, ix0 + c));
            assert(self.map.at(iy0 + r, ix0 + c).is_door_with_id(id));
        }
        if self.doors.contains_key(id) && iy0 <= self.doors[id].0 < iy0 + ny && ix0
            <= self.doors[id].1 < ix0 + nx {
            let r = self.doors[id].0 - iy0;
            let c = self.doors[id].1 - ix0;
            assert(w.in_bounds(r, c));
            assert(w.at(r, c) == self.map.at(iy0 + r, ix0 + c));
            assert(w.in_bounds(r, c) && before(r, c, w.rows, 0) && w.at(r, c).is_door_with_id(id));
            assert(has_door_before(w, id, w.rows, 0));
        }
    }
}

/// An index derived by a scan is sound, and it is complete exactly when no
/// two doors of the grid share an id.
pub proof fn lemma_scan_mirrors(doors: DoorIndex, map: GridView<Tile>)
    requires
        map.wf(),
        indexes(doors, map),
    ensures
        forall|id: usize| #[trigger]
            doors.contains_key(id) ==> map.in_bounds(doors[id].0 as int, doors[id].1 as int)
                && map.at(doors[id].0 as int, doors[id].1 as int).is_door_with_id(id),
        door_ids_distinct(map) ==> forall|r: int, c: int|
            map.in_bounds(r, c) ==> (#[trigger] map.at(r, c) matches Tile::Door(d)
                ==> doors.contains_key(d.id) && doors[d.id].0 == r && doors[d.id].1 == c),
{
    assert forall|id: usize| #[trigger] doors.contains_key(id) implies map.in_bounds(
        doors[id].0 as int,
        doors[id].1 as int,
    ) && map.at(doors[id].0 as int, doors[id].1 as int).is_door_with_id(id) by {
        assert(last_door_before(map, id, doors[id].0 as int, doors[id].1 as int, map.rows, 0));
    }
    if door_ids_distinct(map) {
        assert forall|r: int, c: int| map.in_bounds(r, c) implies (#[trigger] map.at(
            r,
            c,
        ) matches Tile::Door(d) ==> doors.contains_key(d.id) && doors[d.id].0 == r && doors[d.id].1
            == c) by {
            if let Tile::Door(d) = map.at(r, c) {
                assert(map.in_bounds(r, c) && before(r, c, map.rows, 0) && map.at(
                    r,
                    c,
                ).is_door_with_id(d.id));
                assert(has_door_before(map, d.id, map.rows, 0));
                assert(doors.contains_key(d.id));
                let r2 = doors[d.id].0 as int;
                let c2 = doors[d.id].1 as int;
                assert(last_door_before(map, d.id, r2, c2, map.rows, 0));
                assert(map.at(r2, c2).is_door_with_id(d.id));
            }
        }
    }
}

/// One placement of a tile, as an editor makes them.
pub struct Placement {
    pub iy: int,
    pub ix: int,
    pub tile: Tile,
}

/// Every placement of the sequence is possible when its turn comes.
pub open spec fn all_possible(room: RoomView, edits: Seq<Placement>) -> bool
    decreases edits.len(),
{
    edits.len() == 0 || (room.can_modify(edits[0].iy, edits[0].ix, edits[0].tile) && all_possible(
        room.modify(edits[0].iy, edits[0].ix, edits[0].tile),
        edits.drop_first(),
    ))
}

/// The room after a sequence of placements, made in order.
pub open spec fn after_all(room: RoomView, edits: Seq<Placement>) -> RoomView
    decreases edits.len(),
{
    if edits.len() == 0 {
        room
    } else {
        after_all(room.modify(edits[0].iy, edits[0].ix, edits[0].tile), edits.drop_first())
    }
}

/// However many tiles are placed, the index mirrors the grid: every entry
/// points at a door with its id, and every door is entered under its own id.
pub proof fn lemma_edits_keep_index(room: RoomView, edits: Seq<Placement>)
    requires
        room.wf(),
        room.index_complete(),
        all_possible(room, edits),
    ensures
        after_all(room, edits).wf(),
        after_all(room, edits).index_complete(),
    decreases edits.len(),
{
    if edits.len() > 0 {
        room.lemma_modify_keeps_index(edits[0].iy, edits[0].ix, edits[0].tile);
        lemma_edits_keep_index(
            room.modify(edits[0].iy, edits[0].ix, edits[0].tile),
            edits.drop_first(),
        );
    }
}

/// A rectangular grid of tiles with its door index and a name.
#[derive(Debug, Clone)]
pub struct Room {
    pub id: usize,
    pub rows: usize,
    pub cols: usize,
    pub map: A2<Tile>,
    pub doors: BTreeMap<usize, (usize, usize)>,
    pub name: String,
}

impl View for Room {
    type V = RoomView;

    open spec fn view(&self) -> RoomView {
        RoomView {
            id: self.id,
            rows: self.rows,
            cols: self.cols,
            map: self.map@,
            doors: self.doors@,
            name: self.name@,
        }
    }
}

impl Room {
    /// The grid is well represented and the room's content is well-formed.
    pub open spec fn wf(&self) -> bool {
        self.map.wf() && self@.wf()
    }

    /// A room of `rows` by `cols` empty tiles, named after its id.
    pub fn empty(id: usize, rows: usize, cols: usize) -> (room: Self)
        requires
            rows <= isize::MAX,
            cols <= isize::MAX,
            rows * cols <= isize::MAX,
        ensures
            room.wf(),
            room@ == RoomView::empty(id, rows, cols),
            room@.index_complete(),
    {
        let map: A2<Tile> = A2::new((rows as isize, cols as isize), Tile::Empty);
        let mut name: String = String::from_str("Room ");
        name.append(decimal(id).as_str());
        proof {
            map.lemma_wf_view();
        }
        Room { id, rows, cols, map, doors: BTreeMap::new(), name }
    }

    /// The grid, for reading.
    pub fn map(&self) -> (m: &A2<Tile>)
        ensures
            *m == self.map,
    {
        &self.map
    }

    /// The grid, for writing in place. Nothing keeps the door index in step
    /// with what is written through this reference.
    pub fn map_mut(&mut self) -> (m: &mut A2<Tile>)
        ensures
            *m == old(self).map,
            *final(self) == (Room { map: *final(m), ..*old(self) }),
    {
        &mut self.map
    }

    /// The extent as `(rows, cols)`.
    pub fn dims(&self) -> (d: (usize, usize))
        ensures
            d == (self.rows, self.cols),
    {
        (self.rows, self.cols)
    }

    /// Where the door with this id stands, if the index knows it.
    pub fn locate_door(&self, door: usize) -> (r: Option<(usize, usize)>)
        ensures
            r == if self@.doors.contains_key(door) {
                Some(self@.doors[door])
            } else {
                None
            },
    {
        match self.doors.get(&door) {
            Some(p) => Some(*p),
            None => None,
        }
    }

    /// Places `tile` at `(iy, ix)` and returns the tile as written. The door
    /// that stood there leaves the index; a door that is placed enters it,
    /// under a fresh id if its own is taken elsewhere in the room.
    pub fn modify(&mut self, iy: usize, ix: usize, tile: Tile) -> (written: Tile)
        requires
            old(self).wf(),
            old(self)@.can_modify(iy as int, ix as int, tile),
        ensures
            final(self).wf(),
            final(self)@ == old(self)@.modify(iy as int, ix as int, tile),
            written == old(self)@.placed(iy as int, ix as int, tile),
            old(self)@.index_complete() ==> final(self)@.index_complete(),
    {
        let mut tile = tile;
        let old_tile: Tile = self.map.get(iy, ix);
        if let Tile::Door(d_old) = old_tile {
            self.doors.remove(&d_old.id);
        }
        assert(self.doors@ == old(self)@.doors_without(iy as int, ix as int));
        if let Tile::Door(d) = tile {
            let mut d = d;
            if self.doors.contains_key(&d.id) {
                d.id = match last_key(&self.doors) {
                    Some(k) => k + 1,
                    None => 0,
                };
            }
            self.doors.insert(d.id, (iy, ix));
            tile = Tile::Door(d);
        }
        self.map.set(iy, ix, tile);
        proof {
            old(self)@.lemma_modify_keeps_index(iy as int, ix as int, tile);
        }
        tile
    }

    /// Whether `tile` can be placed at `(iy, ix)`: the cell must exist, and
    /// a door that would be renumbered must get an id the machine can hold.
    pub fn can_modify(&self, iy: usize, ix: usize, tile: Tile) -> (ok: bool)
        requires
            self.wf(),
        ensures
            ok == self@.can_modify(iy as int, ix as int, tile),
    {
        if iy >= self.rows || ix >= self.cols {
            return false;
        }
        match tile {
            Tile::Door(d) => {
                let ghost doors1 = self@.doors_without(iy as int, ix as int);
                let here: Option<usize> = match self.map.get(iy, ix) {
                    Tile::Door(o) => Some(o.id),
                    _ => None,
                };
                let leaves_id: bool = match here {
                    Some(h) => h == d.id,
                    None => false,
                };
                let leaves_top: bool = match here {
                    Some(h) => h == usize::MAX,
                    None => false,
                };
                let taken: bool = self.doors.contains_key(&d.id) && !leaves_id;
                let top_taken: bool = self.doors.contains_key(&usize::MAX) && !leaves_top;
                proof {
                    assert(taken == doors1.contains_key(d.id));
                    assert(top_taken == doors1.contains_key(usize::MAX));
                    if taken {
                        lemma_nonempty_has_last(doors1, d.id);
                        if top_taken {
                            crate::keys::lemma_max_key_is_last(doors1, usize::MAX);
                        }
                    }
                }
                !taken || !top_taken
            },
            _ => true,
        }
    }

    /// Advances the animation of every tile by one tick.
    pub fn next(&mut self)
        requires
            old(self).wf(),
        ensures
            final(self).wf(),
            final(self)@ == old(self)@.next(),
            old(self)@.index_complete() ==> final(self)@.index_complete(),
    {
        let ghost start = self.map@;
        proof {
            self.map.lemma_wf_view();
        }
        let mut i: usize = 0;
        while i < self.rows
            invariant
                i <= self.rows,
                self.map.wf(),
                self.map@.wf(),
                self.map@.rows == start.rows,
                self.map@.cols == start.cols,
                self.map@.out == start.out,
                start.wf(),
                self.rows == start.rows,
                self.cols == start.cols,
                self.id == old(self).id,
                self.doors == old(self).doors,
                self.name == old(self).name,
                self.rows == old(self).rows,
                self.cols == old(self).cols,
                forall|a: int, b: int|
                    start.in_bounds(a, b) ==> #[trigger] self.map@.at(a, b) == if a < i {
                        start.at(a, b).spec_next()
                    } else {
                        start.at(a, b)
                    },
            decreases self.rows - i,
        {
            let mut j: usize = 0;
            while j < self.cols
                invariant
                    i < self.rows,
                    j <= self.cols,
                    self.map.wf(),
                    self.map@.wf(),
                    self.map@.rows == start.rows,
                    self.map@.cols == start.cols,
                    self.map@.out == start.out,
                    start.wf(),
                    self.rows == start.rows,
                    self.cols == start.cols,
                    self.id == old(self).id,
                    self.doors == old(self).doors,
                    self.name == old(self).name,
                    self.rows == old(self).rows,
                    self.cols == old(self).cols,
                    forall|a: int, b: int|
                        start.in_bounds(a, b) ==> #[trigger] self.map@.at(a, b) == if before(
                            a,
                            b,
                            i as int,
                            j as int,
                        ) {
                            start.at(a, b).spec_next()
                        } else {
                            start.at(a, b)
                        },
                decreases self.cols - j,
            {
                let mut t: Tile = self.map.get(i, j);
                t.next();
                let ghost mid = self.map@;
                self.map.set(i, j, t);
                proof {
                    mid.lemma_set_at(i as int, j as int, t);
                }
                j = j + 1;
            }
            i = i + 1;
        }
        proof {
            let want = old(self)@.next();
            assert(want.map.wf());
            assert forall|a: int, b: int| want.map.in_bounds(a, b) implies self.map@.at(a, b)
                == want.map.at(a, b) by {
                assert(start.in_bounds(a, b));
            }
            self.map@.lemma_ext_equal(want.map);
            assert(self@ == want);
            assert forall|id: usize| #[trigger] self@.doors.contains_key(id) implies self@.map.in_bounds(
                self@.doors[id].0 as int,
                self@.doors[id].1 as int,
            ) && self@.map.at(self@.doors[id].0 as int, self@.doors[id].1 as int).is_door_with_id(
                id,
            ) by {
                assert(old(self)@.doors.contains_key(id));
                assert(start.in_bounds(self@.doors[id].0 as int, self@.doors[id].1 as int));
            }
            if old(self)@.index_complete() {
                assert forall|r: int, c: int| self@.map.in_bounds(r, c) implies (
                #[trigger] self@.map.at(r, c) matches Tile::Door(d) ==> self@.doors.contains_key(d.id)
                    && self@.doors[d.id] == (r as usize, c as usize)) by {
                    assert(start.in_bounds(r, c));
                    assert(self.map@.at(r, c) == start.at(r, c).spec_next());
                }
            }
        }
    }
    /// Derives the door index afresh by scanning the grid row by row. Where
    /// two doors share an id the later one is entered.
    pub fn reindex_doors(&mut self)
        requires
            old(self).map.wf(),
            old(self)@.map.rows == old(self).rows,
            old(self)@.map.cols == old(self).cols,
        ensures
            final(self).wf(),
            final(self)@ == (RoomView { doors: final(self)@.doors, ..old(self)@ }),
            final(self).map == old(self).map,
            indexes(final(self)@.doors, final(self)@.map),
            door_ids_distinct(old(self)@.map) ==> final(self)@.index_complete(),
    {
        let ghost map = self.map@;
        proof {
            self.map.lemma_wf_view();
        }
        self.doors.clear();
        assert(indexes_before(self.doors@, map, 0, 0));
        let mut iy: usize = 0;
        while iy < self.rows
            invariant
                iy <= self.rows,
                self.map.wf(),
                self.map@ == map,
                map.wf(),
                map.rows == self.rows,
                map.cols == self.cols,
                self.map == old(self).map,
                self.id == old(self).id,
                self.rows == old(self).rows,
                self.cols == old(self).cols,
                self.name == old(self).name,
                indexes_before(self.doors@, map, iy as int, 0),
            decreases self.rows - iy,
        {
            let mut ix: usize = 0;
            while ix < self.cols
                invariant
                    iy < self.rows,
                    ix <= self.cols,
                    self.map.wf(),
                    self.map@ == map,
                    map.wf(),
                    map.rows == self.rows,
                    map.cols == self.cols,
                    self.map == old(self).map,
                    self.id == old(self).id,
                    self.rows == old(self).rows,
                    self.cols == old(self).cols,
                    self.name == old(self).name,
                    indexes_before(self.doors@, map, iy as int, ix as int),
                decreases self.cols - ix,
            {
                proof {
                    lemma_index_step(self.doors@, map, iy as int, ix as int);
                }
                if let Tile::Door(d) = self.map.get(iy, ix) {
                    self.doors.insert(d.id, (iy, ix));
                }
                ix = ix + 1;
            }
            proof {
                lemma_index_row(self.doors@, map, iy as int);
            }
            iy = iy + 1;
        }
        proof {
            lemma_scan_mirrors(self.doors@, map);
            if door_ids_distinct(map) {
                assert forall|r: int, c: int| map.in_bounds(r, c) implies (#[trigger] map.at(
                    r,
                    c,
                ) matches Tile::Door(d) ==> self.doors@.contains_key(d.id) && self.doors@[d.id] == (
                    r as usize,
                    c as usize,
                )) by {}
            }
        }
    }

    /// Cuts the room down to the `ny` by `nx` window whose corner is
    /// `(iy0, ix0)` and derives the door index afresh from what is left.
    pub fn crop(&mut self, iy0: usize, ny: usize, ix0: usize, nx: usize)
        requires
            old(self).map.wf(),
            old(self)@.can_crop(iy0 as int, ny as int, ix0 as int, nx as int),
        ensures
            final(self).wf(),
            final(self)@.id == old(self)@.id,
            final(self)@.name == old(self)@.name,
            final(self)@.rows == ny,
            final(self)@.cols == nx,
            final(self)@.map == old(self)@.window(iy0 as int, ny as int, ix0 as int, nx as int),
            indexes(final(self)@.doors, final(self)@.map),
            final(self)@ == old(self)@.crop(iy0 as int, ny as int, ix0 as int, nx as int),
            old(self).wf() && old(self)@.index_complete() && iy0 + ny <= old(self).rows && ix0 + nx
                <= old(self).cols ==> {
                &&& final(self)@.index_complete()
                &&& forall|id: usize| #[trigger]
                    final(self)@.doors.contains_key(id) <==> (old(self)@.doors.contains_key(id) && iy0
                        <= old(self)@.doors[id].0 < iy0 + ny && ix0 <= old(self)@.doors[id].1 < ix0
                        + nx)
                &&& forall|id: usize| #[trigger]
                    final(self)@.doors.contains_key(id) ==> final(self)@.doors[id].0 == old(
                        self,
                    )@.doors[id].0 - iy0 && final(self)@.doors[id].1 == old(self)@.doors[id].1 - ix0
            },
    {
        let ghost want = self@.window(iy0 as int, ny as int, ix0 as int, nx as int);
        proof {
            if old(self).wf() && old(self)@.index_complete() && iy0 + ny <= old(self).rows && ix0 + nx
                <= old(self).cols {
                old(self)@.lemma_window_distinct(iy0 as int, ny as int, ix0 as int, nx as int);
            }
            self.map.lemma_wf_view();
            let rows = self.map@.rows;
            let cols = self.map@.cols;
            if iy0 + ny <= rows && ix0 + nx <= cols {
                assert(ny * nx <= rows * cols) by (nonlinear_arith)
                    requires
                        0 <= ny <= rows,
                        0 <= nx <= cols,
                ;
            }
        }
        self.rows = ny;
        self.cols = nx;
        let mut map: A2<Tile> = A2::new((ny as isize, nx as isize), Tile::Empty);
        proof {
            map.lemma_wf_view();
        }
        let mut iy: usize = 0;
        while iy < ny
            invariant
                iy <= ny,
                iy0 + ny <= usize::MAX,
                ix0 + nx <= usize::MAX,
                self.map.wf(),
                self.map == old(self).map,
                map.wf(),
                map@.wf(),
                map@.rows == ny,
                map@.cols == nx,
                map@.out == Tile::Empty,
                want == old(self)@.window(iy0 as int, ny as int, ix0 as int, nx as int),
                forall|a: int, b: int|
                    map@.in_bounds(a, b) && a < iy ==> #[trigger] map@.at(a, b) == want.at(a, b),
            decreases ny - iy,
        {
            let mut ix: usize = 0;
            while ix < nx
                invariant
                    iy < ny,
                    ix <= nx,
                    iy0 + ny <= usize::MAX,
                    ix0 + nx <= usize::MAX,
                    self.map.wf(),
                    self.map == old(self).map,
                    map.wf(),
                    map@.wf(),
                    map@.rows == ny,
                    map@.cols == nx,
                    map@.out == Tile::Empty,
                    want == old(self)@.window(iy0 as int, ny as int, ix0 as int, nx as int),
                    forall|a: int, b: int|
                        map@.in_bounds(a, b) && before(a, b, iy as int, ix as int) ==> #[trigger] map@.at(
                            a,
                            b,
                        ) == want.at(a, b),
                decreases nx - ix,
            {
                let t: Tile = self.map.get(iy0 + iy, ix0 + ix);
                let ghost mid = map@;
                map.set(iy, ix, t);
                proof {
                    mid.lemma_set_at(iy as int, ix as int, t);
                    assert(want.in_bounds(iy as int, ix as int));
                }
                ix = ix + 1;
            }
            iy = iy + 1;
        }
        proof {
            assert(want.wf());
            map@.lemma_ext_equal(want);
        }
        self.map = map;
        self.reindex_doors();
        proof {
            old(self)@.lemma_crop_is(iy0 as int, ny as int, ix0 as int, nx as int, self@);
            if old(self).wf() && old(self)@.index_complete() && iy0 + ny <= old(self).rows && ix0 + nx
                <= old(self).cols {
                assert forall|id: usize|
                    (#[trigger] self@.doors.contains_key(id) <==> (old(self)@.doors.contains_key(id)
                        && iy0 <= old(self)@.doors[id].0 < iy0 + ny && ix0 <= old(self)@.doors[id].1
                        < ix0 + nx)) && (self@.doors.contains_key(id) ==> self@.doors[id].0 == old(
                        self,
                    )@.doors[id].0 - iy0 && self@.doors[id].1 == old(self)@.doors[id].1 - ix0) by {
                    old(self)@.lemma_crop_doors(
                        iy0 as int,
                        ny as int,
                        ix0 as int,
                        nx as int,
                        self@.doors,
                        id,
                    );
                }
            }
        }
    }

    /// The door with this id, for changing in place. The index must know the
    /// id. The grid follows what is written through the reference; the index
    /// does not, so the door's id is best left alone.
    pub fn find_door(&mut self, door: usize) -> (d: &mut Door)
        requires
            old(self).wf(),
            old(self)@.doors.contains_key(door),
        ensures
            Tile::Door(*d) == old(self)@.map.at(
                old(self)@.doors[door].0 as int,
                old(self)@.doors[door].1 as int,
            ),
            d.id == door,
            final(self).map.wf(),
            final(self)@ == old(self)@.with_tile(
                old(self)@.doors[door].0 as int,
                old(self)@.doors[door].1 as int,
                Tile::Door(*final(d)),
            ),
    {
        let p: (usize, usize) = match self.doors.get(&door) {
            Some(p) => *p,
            None => vstd::pervasive::unreached(),
        };
        match self.map.get_mut(p.0, p.1) {
            Tile::Door(d) => d,
            _ => vstd::pervasive::unreached(),
        }
    }

    /// Overwrites the cell at `(iy, ix)` without touching the index. This is
    /// for writes that leave the doors where they are.
    pub fn overwrite(&mut self, iy: usize, ix: usize, tile: Tile)
        requires
            old(self).wf(),
            old(self)@.keeps_doors(iy as int, ix as int, tile),
        ensures
            final(self).wf(),
            final(self)@ == old(self)@.with_tile(iy as int, ix as int, tile),
            old(self)@.index_complete() ==> final(self)@.index_complete(),
    {
        proof {
            self@.lemma_with_tile(iy as int, ix as int, tile);
        }
        self.map.set(iy, ix, tile);
    }

    /// A copy of the door with this id, which the index must know.
    pub fn door(&self, id: usize) -> (d: Door)
        requires
            self.wf(),
            self@.doors.contains_key(id),
        ensures
            d == self@.door(id),
            d.id == id,
    {
        assert(self@.entry_sound(id));
        let p: (usize, usize) = match self.doors.get(&id) {
            Some(p) => *p,
            None => vstd::pervasive::unreached(),
        };
        match self.map.get(p.0, p.1) {
            Tile::Door(d) => d,
            _ => vstd::pervasive::unreached(),
        }
    }

    /// Replaces the door with this id by `d`, which must carry the same id.
    pub fn set_door(&mut self, id: usize, d: Door)
        requires
            old(self).wf(),
            old(self)@.doors.contains_key(id),
            d.id == id,
        ensures
            final(self).wf(),
            final(self)@ == old(self)@.with_door(id, d),
            old(self)@.index_complete() ==> final(self)@.index_complete(),
    {
        proof {
            self@.lemma_with_door(id, d);
        }
        let r = self.find_door(id);
        *r = d;
    }

    /// Whether the room is well-formed.
    pub fn check(&self) -> (ok: bool)
        ensures
            ok == self.wf(),
    {
        if !self.map.check() {
            return false;
        }
        proof {
            self.map.lemma_wf_view();
        }
        let d: (isize, isize) = self.map.dims();
        if d.0 as usize != self.rows || d.1 as usize != self.cols {
            return false;
        }
        let mut ok: bool = true;
        let ghost ks: Seq<&usize> = spec_keys_iter(&self.doors).remaining();
        let ghost mut idx: int = 0;
        proof {
            axiom_spec_keys_iter(&self.doors);
        }
        for k in it: self.doors.keys()
            invariant
                it.seq() == ks,
                idx == it.index(),
                ks.unref().to_set() == self.doors@.dom(),
                self.map.wf(),
                self.map@.wf(),
                self.map@.rows == self.rows,
                self.map@.cols == self.cols,
                ok <==> forall|n: int| 0 <= n < idx ==> self@.entry_sound(*#[trigger] ks[n]),
        {
            let id: usize = *k;
            assert(self.doors@.contains_key(id)) by {
                assert(ks.unref()[idx] == id);
                assert(ks.unref().to_set().contains(id));
            }
            let good: bool = match self.doors.get(k) {
                Some(p) => p.0 < self.rows && p.1 < self.cols && match self.map.get(p.0, p.1) {
                    Tile::Door(d) => d.id == id,
                    _ => false,
                },
                None => false,
            };
            assert(good == self@.entry_sound(id));
            ok = ok && good;
            proof {
                idx = idx + 1;
            }
        }
        proof {
            let s = ks.unref();
            if ok {
                assert forall|id: usize| #[trigger] self@.doors.contains_key(id) implies self@.entry_sound(
                    id,
                ) by {
                    assert(s.to_set().contains(id));
                    let n = choose|n: int| 0 <= n < s.len() && s[n] == id;
                    assert(self@.entry_sound(*ks[n]));
                }
            } else {
                let n = choose|n: int| 0 <= n < idx && !self@.entry_sound(*#[trigger] ks[n]);
                assert(s[n] == *ks[n]);
                assert(s.to_set().contains(*ks[n]));
                assert(self@.doors.contains_key(*ks[n]));
            }
        }
        ok
    }
}

} // verus!
