//! The level editor's session: the world being edited, the room in focus,
//! the two selections, the tool in hand and the edit history of each room.
//!
//! A front-end turns pointer and key events into the calls below and draws
//! what the session holds.

use std::collections::BTreeMap;
use vstd::prelude::*;
use vstd::string::StringExecFns;
use crate::legend::{plain_tile, tile_of_char};
use crate::mini_rng::{next_state, sample_of, MiniRNG};
use crate::room::Room;
use crate::scan::{chars_of, digit_of, spec_digit};
use crate::text::{decimal, spec_decimal};
use crate::tiles::{Door, Random, Target, Tile};
use crate::undo::{Edit, Undo, UndoView, HISTORY_LIMIT};
use crate::world::{TileAddress, World, WorldView};

verus! {

/// How many rows and columns of tiles the editor shows.
pub const VIEW: usize = 48;

/// What a press of the primary button does to a tile.
#[derive(PartialEq, Eq, Structural, Copy, Clone, Debug)]
pub enum Tool {
    /// Looks, and follows a door that leads somewhere.
    Nothing,
    /// Places this tile.
    Place(Tile),
    /// Places a piece of sky with a look drawn at random.
    PlaceSky,
}

/// The tool that a key of the palette picks.
pub open spec fn spec_tool_for_key(c: char) -> Option<Tool> {
    if c == 'i' {
        Some(Tool::Nothing)
    } else if c == '^' {
        Some(Tool::PlaceSky)
    } else if c == 'D' {
        Some(Tool::Place(Tile::Door(Door { id: 0, target: None, key: None, locked: false })))
    } else if c == 'H' || spec_digit(c) is Some {
        None
    } else {
        match plain_tile(c) {
            Some(t) => Some(Tool::Place(t)),
            None => None,
        }
    }
}

/// The keys of the palette, in the order in which the palette shows them.
pub fn palette_keys() -> (keys: &'static str)
    ensures
        keys@ == "i %#~.@*WFqwasmAx^DKTICSctebR"@,
{
    "i %#~.@*WFqwasmAx^DKTICSctebR"
}

/// The tool that a key of the palette picks, if the key is one.
pub fn tool_for_key(c: char) -> (t: Option<Tool>)
    ensures
        t == spec_tool_for_key(c),
{
    if c == 'i' {
        Some(Tool::Nothing)
    } else if c == '^' {
        Some(Tool::PlaceSky)
    } else if c == 'D' {
        Some(Tool::Place(Tile::Door(Door { id: 0, target: None, key: None, locked: false })))
    } else if c == 'H' || digit_of(c).is_some() {
        None
    } else {
        match tile_of_char(c) {
            Some(t) => Some(Tool::Place(t)),
            None => None,
        }
    }
}

/// A number written with at least two digits.
pub open spec fn spec_pad2(n: nat) -> Seq<char> {
    if n < 10 {
        "0"@ + spec_decimal(n)
    } else {
        spec_decimal(n)
    }
}

/// What the editor says of the tile under the pointer.
pub open spec fn spec_hover_text(iy: usize, ix: usize, tile: Tile) -> Seq<char> {
    "("@ + spec_pad2(iy as nat) + ","@ + spec_pad2(ix as nat) + ") "@ + tile.spec_to_string()
}

pub open spec fn msg_no_room() -> Seq<char> {
    "No room"@
}

pub open spec fn msg_connected() -> Seq<char> {
    "Doors connected"@
}

pub open spec fn msg_need_doors() -> Seq<char> {
    "You need to select two unconnected doors!"@
}

pub open spec fn msg_need_door_object() -> Seq<char> {
    "Select door in green and object in red"@
}

pub open spec fn msg_need_start() -> Seq<char> {
    "Select starting position in green"@
}

pub open spec fn msg_same_room() -> Seq<char> {
    "Select red and green corners in the same room"@
}

pub open spec fn msg_two_corners() -> Seq<char> {
    "Select two corners"@
}

pub open spec fn msg_cropped(ny: usize, nx: usize) -> Seq<char> {
    "Room cropped to "@ + spec_decimal(ny as nat) + " × "@ + spec_decimal(nx as nat)
}

/// The smaller of two numbers.
pub open spec fn lo(a: usize, b: usize) -> usize {
    if a <= b {
        a
    } else {
        b
    }
}

/// The larger of two numbers.
pub open spec fn hi(a: usize, b: usize) -> usize {
    if a <= b {
        b
    } else {
        a
    }
}

/// The mathematical content of an editor session.
pub struct EditorView {
    pub world: WorldView,
    pub room: Option<usize>,
    pub selection1: Option<TileAddress>,
    pub selection2: Option<TileAddress>,
    pub tool: Tool,
    pub info: Seq<char>,
    pub message: Seq<char>,
    pub goto: Option<usize>,
    pub hover: Option<(usize, usize)>,
    pub last_edit: Option<(usize, usize)>,
    pub rainbow_index: usize,
    pub rng: u32,
    pub undos: Map<usize, UndoView>,
    pub delete_safety: bool,
}

impl EditorView {
    /// The world is well-formed, the selections lie inside the part of a
    /// room that the editor shows, the rainbow is at one of its colours, and
    /// every history keeps fifty edits.
    pub open spec fn wf(self) -> bool {
        &&& self.world.wf()
        &&& self.selection1 matches Some(a) ==> a.iy < VIEW && a.ix < VIEW
        &&& self.selection2 matches Some(b) ==> b.iy < VIEW && b.ix < VIEW
        &&& self.rainbow_index < 6
        &&& forall|k: usize| #[trigger] self.undos.contains_key(k) ==> self.undos[k].limit == HISTORY_LIMIT
    }

    /// A session on an empty world.
    pub open spec fn fresh() -> EditorView {
        EditorView {
            world: WorldView { rooms: Map::empty(), start: None },
            room: None,
            selection1: None,
            selection2: None,
            tool: Tool::Nothing,
            info: Seq::empty(),
            message: Seq::empty(),
            goto: None,
            hover: None,
            last_edit: None,
            rainbow_index: 0,
            rng: next_state(1),
            undos: Map::empty(),
            delete_safety: false,
        }
    }

    /// The room in focus, if it exists in the world.
    pub open spec fn focus(self) -> Option<usize> {
        match self.room {
            Some(id) => if self.world.rooms.contains_key(id) {
                Some(id)
            } else {
                None
            },
            None => None,
        }
    }

    /// The edit history of a room; empty for a room that has none yet.
    pub open spec fn log_of(self, id: usize) -> UndoView {
        if self.undos.contains_key(id) {
            self.undos[id]
        } else {
            UndoView { undo: Seq::empty(), redo: Seq::empty(), limit: HISTORY_LIMIT }
        }
    }

    /// Another room, or none, comes into focus.
    pub open spec fn set_room(self, room: Option<usize>) -> EditorView {
        EditorView { room, hover: None, last_edit: None, info: Seq::empty(), ..self }
    }

    /// The room `id` comes into focus if it exists.
    pub open spec fn goto_room(self, id: usize) -> EditorView {
        if self.world.rooms.contains_key(id) {
            self.set_room(Some(id))
        } else {
            self
        }
    }

    /// The session after `tile` has been placed at `(iy, ix)` of room `id`,
    /// which must exist; nothing is placed where `Room::modify` cannot place.
    pub open spec fn place_in(self, id: usize, iy: usize, ix: usize, tile: Tile) -> EditorView {
        let rm = self.world.rooms[id];
        if rm.can_modify(iy as int, ix as int, tile) {
            EditorView { world: self.world.with_room(id, rm.modify(iy as int, ix as int, tile)), ..self }
        } else {
            self
        }
    }

    /// The session after an edit of the room in focus: the tile is placed
    /// and the edit enters the room's history. Nothing happens without a room
    /// in focus or where the tile cannot be placed.
    pub open spec fn edit(self, iy: usize, ix: usize, tile: Tile) -> EditorView {
        match self.focus() {
            Some(id) => {
                let rm = self.world.rooms[id];
                if rm.can_modify(iy as int, ix as int, tile) {
                    let e = Edit {
                        iy,
                        ix,
                        old_tile: rm.map.at(iy as int, ix as int),
                        new_tile: rm.placed(iy as int, ix as int, tile),
                    };
                    EditorView {
                        undos: self.undos.insert(id, self.log_of(id).edit(e)),
                        ..self.place_in(id, iy, ix, tile)
                    }
                } else {
                    self
                }
            },
            None => self,
        }
    }

    /// The session after the youngest edit of the room in focus has been
    /// taken back: the tile that stood there before is placed again.
    pub open spec fn undo(self) -> EditorView {
        match self.focus() {
            Some(id) => {
                let log = self.log_of(id);
                let s = EditorView { undos: self.undos.insert(id, log.undo()), ..self };
                if log.undo.len() > 0 {
                    s.place_in(id, log.undo.last().iy, log.undo.last().ix, log.undo.last().old_tile)
                } else {
                    s
                }
            },
            None => EditorView { info: msg_no_room(), ..self },
        }
    }

    /// The session after the edit taken back last has been put again.
    pub open spec fn redo(self) -> EditorView {
        match self.focus() {
            Some(id) => {
                let log = self.log_of(id);
                let s = EditorView { undos: self.undos.insert(id, log.redo()), ..self };
                if log.redo.len() > 0 {
                    s.place_in(id, log.redo.last().iy, log.redo.last().ix, log.redo.last().new_tile)
                } else {
                    s
                }
            },
            None => EditorView { info: msg_no_room(), ..self },
        }
    }

    /// The session after the room in focus has been given another name.
    pub open spec fn rename_room(self, name: Seq<char>) -> EditorView {
        match self.focus() {
            Some(id) => EditorView {
                world: self.world.with_room(
                    id,
                    crate::room::RoomView { name, ..self.world.rooms[id] },
                ),
                ..self
            },
            None => self,
        }
    }

    /// The session one animation tick later: the rainbow moves on to its
    /// next colour and the room in focus to its next frame.
    pub open spec fn animate(self) -> EditorView {
        EditorView {
            rainbow_index: if self.rainbow_index + 1 >= 6 {
                0
            } else {
                (self.rainbow_index + 1) as usize
            },
            world: match self.focus() {
                Some(id) => self.world.with_room(id, self.world.rooms[id].next()),
                None => self.world,
            },
            ..self
        }
    }

    /// The session after the pointer has come to rest on a tile: the tile is
    /// described, unless it is the tile that was described last.
    pub open spec fn hover(self, iy: usize, ix: usize) -> EditorView {
        match self.focus() {
            Some(id) => if self.hover != Some((iy, ix)) {
                EditorView {
                    info: spec_hover_text(iy, ix, self.world.rooms[id].map.at(iy as int, ix as int)),
                    hover: Some((iy, ix)),
                    ..self
                }
            } else {
                self
            },
            None => self,
        }
    }

    /// The session after `tile` has been placed with the tool in hand.
    pub open spec fn placed_with_tool(self, iy: usize, ix: usize, tile: Tile) -> EditorView {
        EditorView { last_edit: Some((iy, ix)), hover: None, ..self.edit(iy, ix, tile) }
    }

    /// The session after the primary button is found down on a tile. A tile
    /// is worked on once for as long as the button stays down on it. The
    /// looking tool follows a door; the placing tools place.
    pub open spec fn press(self, iy: usize, ix: usize) -> EditorView {
        match self.focus() {
            Some(id) => if self.last_edit != Some((iy, ix)) {
                match self.tool {
                    Tool::Nothing => match self.world.rooms[id].map.at(iy as int, ix as int) {
                        Tile::Door(d) => match d.target {
                            Some(t) => EditorView { goto: Some(t.room), ..self },
                            None => self,
                        },
                        _ => self,
                    },
                    Tool::Place(tile) => self.placed_with_tool(iy, ix, tile),
                    Tool::PlaceSky => EditorView {
                        rng: next_state(next_state(self.rng)),
                        ..self
                    }.placed_with_tool(
                        iy,
                        ix,
                        Tile::Sky(Random { i: sample_of(self.rng, next_state(self.rng), 20) as u32 }),
                    ),
                }
            } else {
                self
            },
            None => self,
        }
    }

    /// The session after the secondary button went down on a tile of the
    /// part shown: the first selection, or with shift the second, is put on
    /// the tile, or taken off it if it was there.
    pub open spec fn select(self, iy: usize, ix: usize, shift: bool) -> EditorView {
        match self.focus() {
            Some(id) => if iy < VIEW && ix < VIEW {
                let pick = Some(TileAddress { room_id: id, iy, ix });
                if shift {
                    EditorView {
                        last_edit: None,
                        selection2: if self.selection2 == pick {
                            None
                        } else {
                            pick
                        },
                        ..self
                    }
                } else {
                    EditorView {
                        last_edit: None,
                        selection1: if self.selection1 == pick {
                            None
                        } else {
                            pick
                        },
                        ..self
                    }
                }
            } else {
                self
            },
            None => self,
        }
    }

    /// The door tile at an address, if the address names a cell with a door.
    pub open spec fn door_at(self, ta: TileAddress) -> Option<Door> {
        if self.world.rooms.contains_key(ta.room_id) && self.world.rooms[ta.room_id].map.in_bounds(
            ta.iy as int,
            ta.ix as int,
        ) {
            match self.world.rooms[ta.room_id].map.at(ta.iy as int, ta.ix as int) {
                Tile::Door(d) => Some(d),
                _ => None,
            }
        } else {
            None
        }
    }

    /// The session after the two selected doors have been connected. Both
    /// selections must be on doors that lead nowhere yet.
    pub open spec fn connect(self) -> EditorView {
        match (self.selection1, self.selection2) {
            (Some(a), Some(b)) => if self.world.rooms.contains_key(a.room_id)
                && self.world.rooms.contains_key(b.room_id) {
                match (self.door_at(a), self.door_at(b)) {
                    (Some(d1), Some(d2)) => if d1.target is None && d2.target is None {
                        let t1 = Tile::Door(
                            Door { target: Some(Target { room: b.room_id, door: d2.id }), ..d1 },
                        );
                        let t2 = Tile::Door(
                            Door { target: Some(Target { room: a.room_id, door: d1.id }), ..d2 },
                        );
                        EditorView {
                            world: self.world.set_tile(a, t1).set_tile(b, t2),
                            message: msg_connected(),
                            ..self
                        }
                    } else {
                        EditorView { message: msg_need_doors(), ..self }
                    },
                    _ => EditorView { message: msg_need_doors(), ..self },
                }
            } else {
                self
            },
            _ => self,
        }
    }

    /// The session after the door under the first selection has been locked
    /// with the object under the second for its key.
    pub open spec fn udw(self) -> EditorView {
        match (self.selection1, self.selection2) {
            (Some(a), Some(b)) => match (self.door_at(a), self.world.get_tile(b)) {
                (Some(d), Some(Tile::Object(o))) => EditorView {
                    world: self.world.set_tile(
                        a,
                        Tile::Door(Door { key: Some(o), locked: true, ..d }),
                    ),
                    ..self
                },
                _ => EditorView { message: msg_need_door_object(), ..self },
            },
            _ => EditorView { message: msg_need_door_object(), ..self },
        }
    }

    /// The session after the first selection has been made the hero's
    /// starting point.
    pub open spec fn set_start(self) -> EditorView {
        match self.selection1 {
            Some(a) => EditorView { world: WorldView { start: Some(a), ..self.world }, ..self },
            None => EditorView { message: msg_need_start(), ..self },
        }
    }

    /// The session after the room of the two selections has been cut down to
    /// the rectangle that the selections span.
    pub open spec fn crop(self) -> EditorView {
        match (self.selection1, self.selection2) {
            (Some(a), Some(b)) => if a.room_id != b.room_id {
                EditorView { message: msg_same_room(), ..self }
            } else if self.world.rooms.contains_key(a.room_id) {
                let iy0 = lo(a.iy, b.iy);
                let ix0 = lo(a.ix, b.ix);
                let ny = (hi(a.iy, b.iy) - iy0 + 1) as usize;
                let nx = (hi(a.ix, b.ix) - ix0 + 1) as usize;
                EditorView {
                    world: self.world.with_room(
                        a.room_id,
                        self.world.rooms[a.room_id].crop(iy0 as int, ny as int, ix0 as int, nx as int),
                    ),
                    message: msg_cropped(ny, nx),
                    ..self
                }
            } else {
                EditorView { message: msg_two_corners(), ..self }
            },
            _ => EditorView { message: msg_two_corners(), ..self },
        }
    }

    /// The id that a new room gets: one above the largest in use, or zero in
    /// an empty world.
    pub open spec fn fresh_id(self) -> int {
        match crate::keys::spec_last_key(self.world.rooms) {
            Some(k) => k + 1,
            None => 0,
        }
    }

    /// The session after the room in focus has been deleted for good.
    pub open spec fn confirm_delete(self) -> EditorView {
        match self.room {
            Some(id) => EditorView {
                world: WorldView { rooms: self.world.rooms.remove(id), ..self.world },
                delete_safety: false,
                ..self.set_room(None)
            },
            None => EditorView { delete_safety: false, ..self },
        }
    }

    /// Putting back what an edit replaced restores the room exactly, and
    /// putting the edit again restores what the edit made, when the room's
    /// index mirrors its grid.
    pub proof fn lemma_edit_undo_redo(self, iy: usize, ix: usize, tile: Tile)
        requires
            self.wf(),
            self.focus() matches Some(id) && self.world.rooms[id].index_complete()
                && self.world.rooms[id].can_modify(iy as int, ix as int, tile),
        ensures
            self.edit(iy, ix, tile).undo().world == self.world,
            self.edit(iy, ix, tile).undo().redo().world == self.edit(iy, ix, tile).world,
    {
        let id = self.focus()->0;
        let rm = self.world.rooms[id];
        let s1 = self.edit(iy, ix, tile);
        rm.lemma_modify_back(iy as int, ix as int, tile);
        rm.lemma_modify_again(iy as int, ix as int, tile);
        rm.lemma_modify_keeps_index(iy as int, ix as int, tile);
        let log = self.log_of(id);
        let e = Edit {
            iy,
            ix,
            old_tile: rm.map.at(iy as int, ix as int),
            new_tile: rm.placed(iy as int, ix as int, tile),
        };
        log.lemma_edit_undo_redo(e);
        let s2 = s1.undo();
        assert(s1.world.rooms[id] == rm.modify(iy as int, ix as int, tile));
        assert(s1.log_of(id) == log.edit(e));
        assert(s2.world.rooms =~= self.world.rooms);
        let s3 = s2.redo();
        assert(s2.log_of(id) == log.edit(e).undo());
        assert(s3.world.rooms =~= s1.world.rooms);
    }
}

/// An editor session.
pub struct Editor {
    world: World,
    room: Option<usize>,
    selection1: Option<TileAddress>,
    selection2: Option<TileAddress>,
    tool: Tool,
    info: String,
    message: String,
    goto: Option<usize>,
    hover: Option<(usize, usize)>,
    last_edit: Option<(usize, usize)>,
    rainbow_index: usize,
    rng: MiniRNG,
    undos: BTreeMap<usize, Undo>,
    delete_safety: bool,
}

impl View for Editor {
    type V = EditorView;

    closed spec fn view(&self) -> EditorView {
        EditorView {
            world: self.world@,
            room: self.room,
            selection1: self.selection1,
            selection2: self.selection2,
            tool: self.tool,
            info: self.info@,
            message: self.message@,
            goto: self.goto,
            hover: self.hover,
            last_edit: self.last_edit,
            rainbow_index: self.rainbow_index,
            rng: self.rng@,
            undos: Map::new(|k: usize| self.undos@.contains_key(k), |k: usize| self.undos@[k]@),
            delete_safety: self.delete_safety,
        }
    }
}

/// A number written with at least two digits.
fn pad2(n: usize) -> (s: String)
    ensures
        s@ == spec_pad2(n as nat),
{
    if n < 10 {
        let mut s: String = String::from_str("0");
        s.append(decimal(n).as_str());
        s
    } else {
        decimal(n)
    }
}

impl Editor {
    /// The world is well represented and the session's content well-formed.
    pub closed spec fn wf(&self) -> bool {
        self.world.wf() && self@.wf()
    }

    /// A well-formed session has well-formed content.
    pub proof fn lemma_wf(&self)
        requires
            self.wf(),
        ensures
            self@.wf(),
    {
    }

    /// A session on an empty world, with the looking tool in hand.
    pub fn new() -> (e: Self)
        ensures
            e.wf(),
            e@ == EditorView::fresh(),
    {
        let e = Editor {
            world: World::new(),
            room: None,
            selection1: None,
            selection2: None,
            tool: Tool::Nothing,
            info: String::new(),
            message: String::new(),
            goto: None,
            hover: None,
            last_edit: None,
            rainbow_index: 0,
            rng: MiniRNG::new(1),
            undos: BTreeMap::new(),
            delete_safety: false,
        };
        assert(e@.undos =~= Map::<usize, UndoView>::empty());
        e
    }

    /// The world being edited.
    pub fn world(&self) -> (w: &World)
        requires
            self.wf(),
        ensures
            w@ == self@.world,
            w.wf(),
    {
        &self.world
    }

    /// Replaces the world being edited.
    pub fn set_world(&mut self, world: World)
        requires
            old(self).wf(),
            world.wf(),
        ensures
            final(self).wf(),
            final(self)@ == (EditorView { world: world@, ..old(self)@ }),
    {
        self.world = world;
    }

    /// The id of the room in focus.
    pub fn room(&self) -> (r: Option<usize>)
        ensures
            r == self@.room,
    {
        self.room
    }

    pub fn selection1(&self) -> (s: Option<TileAddress>)
        ensures
            s == self@.selection1,
    {
        self.selection1
    }

    pub fn selection2(&self) -> (s: Option<TileAddress>)
        ensures
            s == self@.selection2,
    {
        self.selection2
    }

    /// The tool in hand.
    pub fn tool(&self) -> (t: Tool)
        ensures
            t == self@.tool,
    {
        self.tool
    }

    /// The description of the tile under the pointer.
    pub fn info(&self) -> (s: &str)
        ensures
            s@ == self@.info,
    {
        self.info.as_str()
    }

    /// The status line.
    pub fn message(&self) -> (s: &str)
        ensures
            s@ == self@.message,
    {
        self.message.as_str()
    }

    /// Which colour the rainbow is at.
    pub fn rainbow_index(&self) -> (i: usize)
        requires
            self.wf(),
        ensures
            i == self@.rainbow_index,
            i < 6,
    {
        self.rainbow_index
    }

    /// Whether a deletion waits to be confirmed.
    pub fn delete_safety(&self) -> (b: bool)
        ensures
            b == self@.delete_safety,
    {
        self.delete_safety
    }

    /// Replaces the status line.
    pub fn say(&mut self, msg: &str)
        requires
            old(self).wf(),
        ensures
            final(self).wf(),
            final(self)@ == (EditorView { message: msg@, ..old(self)@ }),
    {
        self.message = String::from_str(msg);
    }

    /// Takes another tool in hand.
    pub fn set_tool(&mut self, tool: Tool)
        requires
            old(self).wf(),
        ensures
            final(self).wf(),
            final(self)@ == (EditorView { tool, ..old(self)@ }),
    {
        self.tool = tool;
    }

    /// Brings another room, or none, into focus.
    pub fn set_room(&mut self, room: Option<usize>)
        requires
            old(self).wf(),
        ensures
            final(self).wf(),
            final(self)@ == old(self)@.set_room(room),
    {
        self.room = room;
        self.hover = None;
        self.last_edit = None;
        self.info = String::new();
    }

    /// Brings the room `id` into focus if it exists.
    pub fn goto_room(&mut self, id: usize)
        requires
            old(self).wf(),
        ensures
            final(self).wf(),
            final(self)@ == old(self)@.goto_room(id),
    {
        if self.world.has_room(id) {
            self.set_room(Some(id));
        }
    }

    /// Brings a room picked from the list into focus; a deletion that waited
    /// to be confirmed is off.
    pub fn pick_room(&mut self, id: usize)
        requires
            old(self).wf(),
        ensures
            final(self).wf(),
            final(self)@ == (EditorView { delete_safety: false, ..old(self)@.set_room(Some(id)) }),
    {
        self.set_room(Some(id));
        self.delete_safety = false;
    }

    /// Takes the room that a followed door asked for.
    pub fn take_goto(&mut self) -> (g: Option<usize>)
        requires
            old(self).wf(),
        ensures
            final(self).wf(),
            g == old(self)@.goto,
            final(self)@ == (EditorView { goto: None, ..old(self)@ }),
    {
        let g = self.goto;
        self.goto = None;
        g
    }

    /// The room in focus, if it exists in the world.
    pub fn focus(&self) -> (r: Option<usize>)
        requires
            self.wf(),
        ensures
            r == self@.focus(),
    {
        match self.room {
            Some(id) => if self.world.has_room(id) {
                Some(id)
            } else {
                None
            },
            None => None,
        }
    }

    /// The cell of the part shown that a row and a column, counted from the
    /// corner and perhaps outside, name.
    pub fn cell_in_view(iy: isize, ix: isize) -> (r: Option<(usize, usize)>)
        ensures
            r == if 0 <= iy < VIEW && 0 <= ix < VIEW {
                Some((iy as usize, ix as usize))
            } else {
                None
            },
    {
        if 0 <= iy && iy < VIEW as isize && 0 <= ix && ix < VIEW as isize {
            Some((iy as usize, ix as usize))
        } else {
            None
        }
    }

    /// Places `tile` in room `id`, which must exist, where it can be placed.
    fn place_in(&mut self, id: usize, iy: usize, ix: usize, tile: Tile)
        requires
            old(self).wf(),
            old(self)@.world.rooms.contains_key(id),
        ensures
            final(self).wf(),
            final(self)@ == old(self)@.place_in(id, iy, ix, tile),
    {
        if self.world.get_room(id).can_modify(iy, ix, tile) {
            self.world.set_tile(&TileAddress { room_id: id, iy, ix }, tile);
        }
    }

    /// Takes the history of room `id` out of the session, or a fresh one.
    fn take_log(&mut self, id: usize) -> (log: Undo)
        ensures
            log@ == old(self)@.log_of(id),
            final(self)@.undos == old(self)@.undos.remove(id),
            final(self)@ == (EditorView { undos: final(self)@.undos, ..old(self)@ }),
            final(self).world == old(self).world,
    {
        let log = match self.undos.remove(&id) {
            Some(l) => l,
            None => Undo::new(),
        };
        assert(self@.undos =~= old(self)@.undos.remove(id));
        log
    }

    /// Puts the history of room `id` back into the session.
    fn put_log(&mut self, id: usize, log: Undo)
        ensures
            final(self)@.undos == old(self)@.undos.insert(id, log@),
            final(self)@ == (EditorView { undos: final(self)@.undos, ..old(self)@ }),
            final(self).world == old(self).world,
    {
        let ghost lv = log@;
        self.undos.insert(id, log);
        assert(self@.undos =~= old(self)@.undos.insert(id, lv));
    }

    /// Places a tile in the room in focus and records the edit.
    pub fn edit(&mut self, iy: usize, ix: usize, tile: Tile)
        requires
            old(self).wf(),
        ensures
            final(self).wf(),
            final(self)@ == old(self)@.edit(iy, ix, tile),
    {
        if let Some(id) = self.focus() {
            let rm = self.world.get_room(id);
            if rm.can_modify(iy, ix, tile) {
                let old_tile: Tile = rm.map.get(iy, ix);
                let mut log = self.take_log(id);
                let ta = TileAddress { room_id: id, iy, ix };
                let ghost before = self.world@;
                self.world.set_tile(&ta, tile);
                let new_tile: Tile = match self.world.get_tile(&ta) {
                    Some(t) => t,
                    None => tile,
                };
                proof {
                    before.rooms[id].lemma_modify_keeps_index(iy as int, ix as int, tile);
                }
                log.edit(Edit { iy, ix, old_tile, new_tile });
                self.put_log(id, log);
                assert(self@.undos =~= old(self)@.undos.insert(id, log@));
            }
        }
    }

    /// Takes back the youngest edit of the room in focus.
    pub fn undo(&mut self)
        requires
            old(self).wf(),
        ensures
            final(self).wf(),
            final(self)@ == old(self)@.undo(),
    {
        match self.focus() {
            Some(id) => {
                let mut log = self.take_log(id);
                let e = log.undo();
                self.put_log(id, log);
                assert(self@.undos =~= old(self)@.undos.insert(id, log@));
                if let Some(e) = e {
                    self.place_in(id, e.iy, e.ix, e.old_tile);
                }
            },
            None => {
                self.info = String::from_str("No room");
            },
        }
    }

    /// Puts again the edit of the room in focus that was taken back last.
    pub fn redo(&mut self)
        requires
            old(self).wf(),
        ensures
            final(self).wf(),
            final(self)@ == old(self)@.redo(),
    {
        match self.focus() {
            Some(id) => {
                let mut log = self.take_log(id);
                let e = log.redo();
                self.put_log(id, log);
                assert(self@.undos =~= old(self)@.undos.insert(id, log@));
                if let Some(e) = e {
                    self.place_in(id, e.iy, e.ix, e.new_tile);
                }
            },
            None => {
                self.info = String::from_str("No room");
            },
        }
    }

    /// Gives the room in focus another name.
    pub fn rename_room(&mut self, name: &str)
        requires
            old(self).wf(),
        ensures
            final(self).wf(),
            final(self)@ == old(self)@.rename_room(name@),
    {
        if let Some(id) = self.focus() {
            self.world.rename_room(id, name);
        }
    }

    /// Moves the animations on by one tick.
    pub fn animate(&mut self)
        requires
            old(self).wf(),
        ensures
            final(self).wf(),
            final(self)@ == old(self)@.animate(),
    {
        self.rainbow_index = crate::aspect::next_rainbow(self.rainbow_index);
        if let Some(id) = self.focus() {
            self.world.animate(id);
        }
    }

    /// The pointer has come to rest on a tile.
    pub fn hover(&mut self, iy: usize, ix: usize)
        requires
            old(self).wf(),
        ensures
            final(self).wf(),
            final(self)@ == old(self)@.hover(iy, ix),
    {
        if let Some(id) = self.focus() {
            let same: bool = match self.hover {
                Some(h) => h.0 == iy && h.1 == ix,
                None => false,
            };
            if !same {
                let tile: Tile = self.world.get_room(id).map.get(iy, ix);
                let mut s: String = String::from_str("(");
                s.append(pad2(iy).as_str());
                s.append(",");
                s.append(pad2(ix).as_str());
                s.append(") ");
                s.append(tile.to_string().as_str());
                self.info = s;
                self.hover = Some((iy, ix));
            }
        }
    }

    /// The primary button is down on a tile.
    pub fn press(&mut self, iy: usize, ix: usize)
        requires
            old(self).wf(),
        ensures
            final(self).wf(),
            final(self)@ == old(self)@.press(iy, ix),
    {
        if let Some(id) = self.focus() {
            let same: bool = match self.last_edit {
                Some(h) => h.0 == iy && h.1 == ix,
                None => false,
            };
            if !same {
                match self.tool {
                    Tool::Nothing => {
                        if let Tile::Door(d) = self.world.get_room(id).map.get(iy, ix) {
                            if let Some(t) = d.target {
                                self.goto = Some(t.room);
                            }
                        }
                    },
                    Tool::Place(tile) => {
                        self.edit(iy, ix, tile);
                        self.last_edit = Some((iy, ix));
                        self.hover = None;
                    },
                    Tool::PlaceSky => {
                        let tile = Tile::Sky(Random::new(self.rng.sample_u32(20)));
                        self.edit(iy, ix, tile);
                        self.last_edit = Some((iy, ix));
                        self.hover = None;
                    },
                }
            }
        }
    }

    /// The secondary button went down on a tile; `shift` tells whether the
    /// shift key was held.
    pub fn select(&mut self, iy: usize, ix: usize, shift: bool)
        requires
            old(self).wf(),
        ensures
            final(self).wf(),
            final(self)@ == old(self)@.select(iy, ix, shift),
    {
        if let Some(id) = self.focus() {
            if iy < VIEW && ix < VIEW {
                self.last_edit = None;
                let pick = TileAddress { room_id: id, iy, ix };
                if shift {
                    let same: bool = match self.selection2 {
                        Some(s) => s == pick,
                        None => false,
                    };
                    self.selection2 = if same {
                        None
                    } else {
                        Some(pick)
                    };
                } else {
                    let same: bool = match self.selection1 {
                        Some(s) => s == pick,
                        None => false,
                    };
                    self.selection1 = if same {
                        None
                    } else {
                        Some(pick)
                    };
                }
            }
        }
    }

    /// No button is down any more.
    pub fn release(&mut self)
        requires
            old(self).wf(),
        ensures
            final(self).wf(),
            final(self)@ == (EditorView { last_edit: None, ..old(self)@ }),
    {
        self.last_edit = None;
    }

    /// The door at an address, if the address names a cell with a door.
    fn door_at(&self, ta: TileAddress) -> (r: Option<Door>)
        requires
            self.wf(),
        ensures
            r == self@.door_at(ta),
    {
        if self.world.has_room(ta.room_id) {
            let rm = self.world.get_room(ta.room_id);
            if ta.iy < rm.rows && ta.ix < rm.cols {
                match rm.map.get(ta.iy, ta.ix) {
                    Tile::Door(d) => Some(d),
                    _ => None,
                }
            } else {
                None
            }
        } else {
            None
        }
    }

    /// Connects the two selected doors, or says what has to be selected.
    pub fn connect(&mut self)
        requires
            old(self).wf(),
        ensures
            final(self).wf(),
            final(self)@ == old(self)@.connect(),
    {
        if let (Some(a), Some(b)) = (self.selection1, self.selection2) {
            if self.world.has_room(a.room_id) && self.world.has_room(b.room_id) {
                match (self.door_at(a), self.door_at(b)) {
                    (Some(d1), Some(d2)) => {
                        if d1.target.is_none() && d2.target.is_none() {
                            let t1 = Tile::Door(
                                Door { target: Some(Target { room: b.room_id, door: d2.id }), ..d1 },
                            );
                            let t2 = Tile::Door(
                                Door { target: Some(Target { room: a.room_id, door: d1.id }), ..d2 },
                            );
                            proof {
                                self.world@.rooms[a.room_id].lemma_same_id_fits(a.iy as int, a.ix as int, t1);
                            }
                            self.world.set_tile(&a, t1);
                            proof {
                                self.world@.rooms[b.room_id].lemma_same_id_fits(b.iy as int, b.ix as int, t2);
                            }
                            self.world.set_tile(&b, t2);
                            self.message = String::from_str("Doors connected");
                        } else {
                            self.message = String::from_str("You need to select two unconnected doors!");
                        }
                    },
                    _ => {
                        self.message = String::from_str("You need to select two unconnected doors!");
                    },
                }
            }
        }
    }

    /// Locks the door under the first selection with the object under the
    /// second for its key, or says what has to be selected.
    pub fn udw(&mut self)
        requires
            old(self).wf(),
        ensures
            final(self).wf(),
            final(self)@ == old(self)@.udw(),
    {
        if let (Some(a), Some(b)) = (self.selection1, self.selection2) {
            if let (Some(d), Some(Tile::Object(o))) = (self.door_at(a), self.world.get_tile(&b)) {
                let t = Tile::Door(Door { key: Some(o), locked: true, ..d });
                proof {
                    self.world@.rooms[a.room_id].lemma_same_id_fits(a.iy as int, a.ix as int, t);
                }
                self.world.set_tile(&a, t);
                return ;
            }
        }
        self.message = String::from_str("Select door in green and object in red");
    }

    /// Makes the first selection the hero's starting point, or says what has
    /// to be selected.
    pub fn set_start(&mut self)
        requires
            old(self).wf(),
        ensures
            final(self).wf(),
            final(self)@ == old(self)@.set_start(),
    {
        match self.selection1 {
            Some(a) => {
                self.world.start = Some(a);
            },
            None => {
                self.message = String::from_str("Select starting position in green");
            },
        }
    }

    /// Cuts the room of the two selections down to the rectangle that they
    /// span, or says what has to be selected.
    pub fn crop(&mut self)
        requires
            old(self).wf(),
        ensures
            final(self).wf(),
            final(self)@ == old(self)@.crop(),
    {
        if let (Some(a), Some(b)) = (self.selection1, self.selection2) {
            if a.room_id != b.room_id {
                self.message = String::from_str("Select red and green corners in the same room");
                return ;
            }
            if self.world.has_room(a.room_id) {
                let iy0: usize = if a.iy <= b.iy {
                    a.iy
                } else {
                    b.iy
                };
                let ix0: usize = if a.ix <= b.ix {
                    a.ix
                } else {
                    b.ix
                };
                let iy1: usize = if a.iy <= b.iy {
                    b.iy
                } else {
                    a.iy
                };
                let ix1: usize = if a.ix <= b.ix {
                    b.ix
                } else {
                    a.ix
                };
                let ny: usize = iy1 - iy0 + 1;
                let nx: usize = ix1 - ix0 + 1;
                assert(ny * nx <= 48 * 48) by (nonlinear_arith)
                    requires
                        ny <= 48,
                        nx <= 48,
                ;
                self.world.crop_room(a.room_id, iy0, ny, ix0, nx);
                let mut s: String = String::from_str("Room cropped to ");
                s.append(decimal(ny).as_str());
                s.append(" × ");
                s.append(decimal(nx).as_str());
                self.message = s;
                return ;
            }
        }
        self.message = String::from_str("Select two corners");
    }

    /// Adds an empty room of the size that the editor shows, under the id
    /// after the largest in use, and brings it into focus. Returns the id, or
    /// `None` when the ids have run out.
    pub fn add_room(&mut self) -> (r: Option<usize>)
        requires
            old(self).wf(),
        ensures
            final(self).wf(),
            match r {
                Some(id) => id == old(self)@.fresh_id() && final(self)@ == (EditorView {
                    world: old(self)@.world.with_room(id, crate::room::RoomView::empty(id, VIEW, VIEW)),
                    ..old(self)@
                }).set_room(Some(id)),
                None => old(self)@.fresh_id() > usize::MAX && final(self)@ == old(self)@,
            },
    {
        let id: usize = match self.world.last_id() {
            Some(k) => {
                if k == usize::MAX {
                    return None;
                }
                k + 1
            },
            None => 0,
        };
        let room = Room::empty(id, VIEW, VIEW);
        self.world.insert_room(room);
        self.set_room(Some(id));
        Some(id)
    }

    /// Asks for the room in focus to be deleted; the deletion waits to be
    /// confirmed.
    pub fn request_delete(&mut self)
        requires
            old(self).wf(),
        ensures
            final(self).wf(),
            final(self)@ == (EditorView { delete_safety: true, ..old(self)@ }),
    {
        self.delete_safety = true;
    }

    /// Calls the deletion off.
    pub fn cancel_delete(&mut self)
        requires
            old(self).wf(),
        ensures
            final(self).wf(),
            final(self)@ == (EditorView { delete_safety: false, ..old(self)@ }),
    {
        self.delete_safety = false;
    }

    /// Deletes the room in focus for good.
    pub fn confirm_delete(&mut self)
        requires
            old(self).wf(),
        ensures
            final(self).wf(),
            final(self)@ == old(self)@.confirm_delete(),
    {
        if let Some(id) = self.room {
            self.world.delete_room(id);
            self.set_room(None);
        }
        self.delete_safety = false;
    }

    /// A key was typed: `u` takes an edit back, `r` puts it again, and a key
    /// of the palette takes its tool in hand.
    pub fn key(&mut self, text: &str)
        requires
            old(self).wf(),
        ensures
            final(self).wf(),
            final(self)@ == if text@ == seq!['u'] {
                old(self)@.undo()
            } else if text@ == seq!['r'] {
                old(self)@.redo()
            } else if text@.len() == 1 && spec_tool_for_key(text@[0]) is Some {
                EditorView { tool: spec_tool_for_key(text@[0])->0, ..old(self)@ }
            } else {
                old(self)@
            },
    {
        let cs = chars_of(text);
        if cs.len() == 1 {
            let c: char = cs[0];
            assert(text@ =~= seq![c]);
            if c == 'u' {
                self.undo();
            } else if c == 'r' {
                self.redo();
            } else if let Some(t) = tool_for_key(c) {
                self.tool = t;
            }
        }
    }
}

} // verus!
