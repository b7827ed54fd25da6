//! The world: rooms keyed by id, the doors that link them, and where the
//! hero starts.
//!
//! The world owns its rooms. Whoever wants a room names it by id and the
//! world looks it up afresh each time.

use std::collections::BTreeMap;
use vstd::prelude::*;
use vstd::std_specs::btree::{axiom_spec_keys_iter, spec_keys_iter};
use vstd::std_specs::iter::IteratorSpec;
use vstd::string::StringExecFns;
use crate::keys::{last_key, lists_keys, sorted_keys, spec_last_key};
use crate::legend::{described, describes, description_ok, room_of, start_of};
use crate::mini_rng::{next_state, MiniRNG};
use crate::object::Object;
use crate::room::{Room, RoomView};
use crate::tiles::{Door, Target, Tile};

verus! {

/// The address of one tile: a room and a cell of it.
#[derive(PartialEq, Eq, Structural, Copy, Clone, Debug)]
pub struct TileAddress {
    pub room_id: usize,
    pub iy: usize,
    pub ix: usize,
}

/// Why two doors cannot be connected.
#[derive(PartialEq, Eq, Structural, Copy, Clone, Debug)]
pub enum ConnectError {
    /// The first door's room or the door itself does not exist.
    NoOrigin,
    /// The second door's room or the door itself does not exist.
    NoDestination,
    /// Both ends name the same door.
    SameDoor,
    /// The first door already leads somewhere.
    OriginInUse(Target),
    /// The second door already leads somewhere.
    DestinationInUse(Target),
}

/// The mathematical content of a world.
pub struct WorldView {
    pub rooms: Map<usize, RoomView>,
    pub start: Option<TileAddress>,
}

impl WorldView {
    /// Every room is well-formed and filed under its own id.
    pub open spec fn wf(self) -> bool {
        forall|k: usize| #[trigger]
            self.rooms.contains_key(k) ==> self.rooms[k].wf() && self.rooms[k].id == k
    }

    /// The world with room `id` replaced, or added.
    pub open spec fn with_room(self, id: usize, room: RoomView) -> WorldView {
        WorldView { rooms: self.rooms.insert(id, room), ..self }
    }

    /// Room `room` exists and its index knows door `door`.
    pub open spec fn has_door(self, room: usize, door: usize) -> bool {
        self.rooms.contains_key(room) && self.rooms[room].doors.contains_key(door)
    }

    /// Door `door` of room `room`.
    pub open spec fn door(self, room: usize, door: usize) -> Door {
        self.rooms[room].door(door)
    }

    /// The world with door `door` of room `room` replaced by `d`.
    pub open spec fn with_door(self, room: usize, door: usize, d: Door) -> WorldView {
        self.with_room(room, self.rooms[room].with_door(door, d))
    }

    /// What stands in the way of connecting the two doors, if anything. The
    /// origin is looked at first.
    pub open spec fn connect_problem(self, room1: usize, door1: usize, room2: usize, door2: usize) -> Option<
        ConnectError,
    > {
        if !self.has_door(room1, door1) {
            Some(ConnectError::NoOrigin)
        } else if !self.has_door(room2, door2) {
            Some(ConnectError::NoDestination)
        } else if room1 == room2 && door1 == door2 {
            Some(ConnectError::SameDoor)
        } else if let Some(t) = self.door(room1, door1).target {
            Some(ConnectError::OriginInUse(t))
        } else if let Some(t) = self.door(room2, door2).target {
            Some(ConnectError::DestinationInUse(t))
        } else {
            None
        }
    }

    /// The two doors exist, are not one and the same, and neither leads
    /// anywhere yet.
    pub open spec fn can_connect(self, room1: usize, door1: usize, room2: usize, door2: usize) -> bool {
        self.connect_problem(room1, door1, room2, door2) is None
    }

    /// The world with the two doors leading to each other.
    pub open spec fn connect(self, room1: usize, door1: usize, room2: usize, door2: usize) -> WorldView {
        let w1 = self.with_door(
            room1,
            door1,
            Door { target: Some(Target { room: room2, door: door2 }), ..self.door(room1, door1) },
        );
        w1.with_door(
            room2,
            door2,
            Door { target: Some(Target { room: room1, door: door1 }), ..w1.door(room2, door2) },
        )
    }

    /// The world with the door locked and `obj` as its key.
    pub open spec fn lock_door_with(self, room: usize, door: usize, obj: Object) -> WorldView {
        self.with_door(room, door, Door { locked: true, key: Some(obj), ..self.door(room, door) })
    }

    /// The tile at an address; none when the room does not exist, and the
    /// room's sentinel when the cell does not.
    pub open spec fn get_tile(self, ta: TileAddress) -> Option<Tile> {
        if self.rooms.contains_key(ta.room_id) {
            Some(self.rooms[ta.room_id].map.at(ta.iy as int, ta.ix as int))
        } else {
            None
        }
    }

    /// Placing a tile at an address is possible: the room is missing, or the
    /// placement is possible in the room.
    pub open spec fn can_set_tile(self, ta: TileAddress, tile: Tile) -> bool {
        self.rooms.contains_key(ta.room_id) ==> self.rooms[ta.room_id].can_modify(
            ta.iy as int,
            ta.ix as int,
            tile,
        )
    }

    /// The world after a tile has been placed at an address. Nothing happens
    /// when the room does not exist.
    pub open spec fn set_tile(self, ta: TileAddress, tile: Tile) -> WorldView {
        if self.rooms.contains_key(ta.room_id) {
            self.with_room(
                ta.room_id,
                self.rooms[ta.room_id].modify(ta.iy as int, ta.ix as int, tile),
            )
        } else {
            self
        }
    }

    /// Replacing a door by a door of the same id keeps the world well-formed
    /// and leaves every other door as it was.
    pub proof fn lemma_with_door(self, room: usize, door: usize, d: Door)
        requires
            self.wf(),
            self.has_door(room, door),
            d.id == door,
        ensures
            self.with_door(room, door, d).wf(),
            self.with_door(room, door, d).door(room, door) == d,
            forall|r: usize, k: usize| #[trigger]
                self.with_door(room, door, d).has_door(r, k) <==> self.has_door(r, k),
            forall|r: usize, k: usize|
                self.has_door(r, k) && !(r == room && k == door) ==> #[trigger] self.with_door(
                    room,
                    door,
                    d,
                ).door(r, k) == self.door(r, k),
    {
        self.rooms[room].lemma_with_door(door, d);
        let after = self.with_door(room, door, d);
        assert forall|r: usize, k: usize| self.has_door(r, k) && !(r == room && k == door) implies #[trigger] after.door(
            r,
            k,
        ) == self.door(r, k) by {
            if r == room {
                assert(after.rooms[r].door(k) == self.rooms[r].door(k));
            }
        }
    }

    /// Connecting makes the two doors lead to each other and keeps the world
    /// well-formed; after it the same connection can not be made again.
    pub proof fn lemma_connect_once(self, room1: usize, door1: usize, room2: usize, door2: usize)
        requires
            self.wf(),
            self.can_connect(room1, door1, room2, door2),
        ensures
            self.connect(room1, door1, room2, door2).wf(),
            self.connect(room1, door1, room2, door2).door(room1, door1).target == Some(
                Target { room: room2, door: door2 },
            ),
            self.connect(room1, door1, room2, door2).door(room2, door2).target == Some(
                Target { room: room1, door: door1 },
            ),
            self.connect(room1, door1, room2, door2).connect_problem(room1, door1, room2, door2)
                == Some(ConnectError::OriginInUse(Target { room: room2, door: door2 })),
            !self.connect(room1, door1, room2, door2).can_connect(room1, door1, room2, door2),
            !self.connect(room1, door1, room2, door2).can_connect(room2, door2, room1, door1),
    {
        let d1 = Door { target: Some(Target { room: room2, door: door2 }), ..self.door(room1, door1) };
        assert(self.rooms[room1].entry_sound(door1));
        assert(self.rooms[room2].entry_sound(door2));
        self.lemma_with_door(room1, door1, d1);
        let w1 = self.with_door(room1, door1, d1);
        assert(w1.has_door(room2, door2));
        assert(w1.door(room2, door2) == self.door(room2, door2));
        let d2 = Door { target: Some(Target { room: room1, door: door1 }), ..w1.door(room2, door2) };
        w1.lemma_with_door(room2, door2, d2);
        let w2 = w1.with_door(room2, door2, d2);
        assert(w2.has_door(room1, door1));
        assert(w2.door(room1, door1) == w1.door(room1, door1));
    }
}

/// The rooms of the game and the hero's starting point.
#[derive(Debug, Clone)]
pub struct World {
    pub rooms: BTreeMap<usize, Room>,
    pub start: Option<TileAddress>,
}

impl View for World {
    type V = WorldView;

    open spec fn view(&self) -> WorldView {
        WorldView {
            rooms: Map::new(|k: usize| self.rooms@.contains_key(k), |k: usize| self.rooms@[k]@),
            start: self.start,
        }
    }
}

impl World {
    /// Every room is well represented, and the world's content is well-formed.
    pub open spec fn wf(&self) -> bool {
        &&& forall|k: usize| #[trigger] self.rooms@.contains_key(k) ==> self.rooms@[k].map.wf()
        &&& self@.wf()
    }

    /// A world without rooms.
    pub fn new() -> (w: Self)
        ensures
            w.wf(),
            w@.rooms == Map::<usize, RoomView>::empty(),
            w@.start is None,
    {
        let w = World { rooms: BTreeMap::new(), start: None };
        assert(w@.rooms =~= Map::<usize, RoomView>::empty());
        w
    }

    /// Forgets every room and the starting point.
    pub fn clear(&mut self)
        ensures
            final(self).wf(),
            final(self)@.rooms == Map::<usize, RoomView>::empty(),
            final(self)@.start is None,
    {
        self.rooms.clear();
        self.start = None;
        assert(self@.rooms =~= Map::<usize, RoomView>::empty());
    }

    /// The ids of the rooms, smallest first.
    pub fn room_list(&self) -> (v: Vec<usize>)
        ensures
            lists_keys(v@, self@.rooms),
    {
        let v = sorted_keys(&self.rooms);
        assert forall|k: usize| v@.contains(k) <==> self@.rooms.contains_key(k) by {}
        v
    }

    /// The largest room id in use. A fresh room takes the id after it.
    pub fn last_id(&self) -> (r: Option<usize>)
        ensures
            r == spec_last_key(self@.rooms),
            r is None <==> self@.rooms.dom() =~= Set::empty(),
    {
        let r = last_key(&self.rooms);
        proof {
            assert(self@.rooms.dom() =~= self.rooms@.dom());
            assert forall|k: usize| crate::keys::is_max_key(self@.rooms, k) == crate::keys::is_max_key(
                self.rooms@,
                k,
            ) by {
                if crate::keys::is_max_key(self.rooms@, k) {
                    assert forall|j: usize| self@.rooms.contains_key(j) implies j <= k by {
                        assert(self.rooms@.contains_key(j));
                    }
                }
                if crate::keys::is_max_key(self@.rooms, k) {
                    assert forall|j: usize| self.rooms@.contains_key(j) implies j <= k by {
                        assert(self@.rooms.contains_key(j));
                    }
                }
            }
        }
        r
    }

    /// Files a room under its own id, replacing the room that had the id.
    pub fn insert_room(&mut self, room: Room)
        ensures
            final(self)@ == old(self)@.with_room(room.id, room@),
            old(self).wf() && room.wf() ==> final(self).wf(),
    {
        let ghost rv = room@;
        self.rooms.insert(room.id, room);
        assert(self@.rooms =~= old(self)@.rooms.insert(rv.id, rv));
    }

    /// Builds a room from its description and files it under `id`. Returns
    /// where the description puts the hero, if anywhere. The sky of each room
    /// is drawn from a generator seeded with 1.
    pub fn add_room(&mut self, id: usize, name: &str, descr: &[&str]) -> (start: Option<TileAddress>)
        requires
            description_ok(described(descr@)),
        ensures
            old(self).wf() ==> final(self).wf(),
            final(self)@ == old(self)@.with_room(
                id,
                room_of(described(descr@), id, name@, next_state(1)),
            ),
            start == start_of(described(descr@), id),
            describes(described(descr@), id, name@, next_state(1), final(self)@.rooms[id], start),
    {
        let mut rng = MiniRNG::new(1);
        let (room, start) = Room::new(id, name, descr, &mut rng);
        self.insert_room(room);
        start
    }

    /// Removes a room, if the id names one.
    pub fn delete_room(&mut self, id: usize)
        ensures
            final(self)@ == (WorldView { rooms: old(self)@.rooms.remove(id), ..old(self)@ }),
            old(self).wf() ==> final(self).wf(),
    {
        self.rooms.remove(&id);
        assert(self@.rooms =~= old(self)@.rooms.remove(id));
    }

    /// Whether a room with this id exists.
    pub fn has_room(&self, id: usize) -> (b: bool)
        ensures
            b == self@.rooms.contains_key(id),
    {
        self.rooms.contains_key(&id)
    }

    /// The room with this id, which must exist.
    pub fn get_room(&self, id: usize) -> (room: &Room)
        requires
            self@.rooms.contains_key(id),
        ensures
            *room == self.rooms@[id],
            room@ == self@.rooms[id],
    {
        match self.rooms.get(&id) {
            Some(r) => r,
            None => vstd::pervasive::unreached(),
        }
    }

    /// Whether room `room` exists and has a door `door`.
    pub fn has_door(&self, room: usize, door: usize) -> (b: bool)
        ensures
            b == self@.has_door(room, door),
    {
        match self.rooms.get(&room) {
            Some(r) => r.locate_door(door).is_some(),
            None => false,
        }
    }

    /// A copy of door `door` of room `room`; both must exist.
    pub fn door(&self, room: usize, door: usize) -> (d: Door)
        requires
            self.wf(),
            self@.has_door(room, door),
        ensures
            d == self@.door(room, door),
            d.id == door,
    {
        self.get_room(room).door(door)
    }

    /// Replaces door `door` of room `room` by `d`, which must carry the same
    /// id.
    pub fn set_door(&mut self, room: usize, door: usize, d: Door)
        requires
            old(self).wf(),
            old(self)@.has_door(room, door),
            d.id == door,
        ensures
            final(self).wf(),
            final(self)@ == old(self)@.with_door(room, door, d),
    {
        let mut r: Room = match self.rooms.remove(&room) {
            Some(r) => r,
            None => vstd::pervasive::unreached(),
        };
        r.set_door(door, d);
        let ghost rv = r@;
        self.rooms.insert(room, r);
        proof {
            assert(self@.rooms =~= old(self)@.rooms.insert(room, rv));
            old(self)@.lemma_with_door(room, door, d);
        }
    }

    /// Locks a door and makes `obj` its key. Room and door must exist.
    pub fn lock_door_with(&mut self, room: usize, door: usize, obj: Object)
        requires
            old(self).wf(),
            old(self)@.has_door(room, door),
        ensures
            final(self).wf(),
            final(self)@ == old(self)@.lock_door_with(room, door, obj),
    {
        let mut d: Door = self.door(room, door);
        d.locked = true;
        d.key = Some(obj);
        self.set_door(room, door, d);
    }

    /// Makes two doors lead to each other. Both must exist, be different
    /// doors, and lead nowhere yet.
    pub fn connect(&mut self, room1: usize, door1: usize, room2: usize, door2: usize)
        requires
            old(self).wf(),
            old(self)@.can_connect(room1, door1, room2, door2),
        ensures
            final(self).wf(),
            final(self)@ == old(self)@.connect(room1, door1, room2, door2),
    {
        let mut d1: Door = self.door(room1, door1);
        d1.target = Some(Target { room: room2, door: door2 });
        proof {
            self@.lemma_with_door(room1, door1, d1);
        }
        self.set_door(room1, door1, d1);
        let mut d2: Door = self.door(room2, door2);
        d2.target = Some(Target { room: room1, door: door1 });
        self.set_door(room2, door2, d2);
    }

    /// Makes two doors lead to each other if that is possible, and says what
    /// stands in the way if not, leaving the world as it was.
    pub fn try_connect(&mut self, room1: usize, door1: usize, room2: usize, door2: usize) -> (r: Result<
        (),
        ConnectError,
    >)
        requires
            old(self).wf(),
        ensures
            final(self).wf(),
            r == match old(self)@.connect_problem(room1, door1, room2, door2) {
                Some(e) => Err::<(), ConnectError>(e),
                None => Ok::<(), ConnectError>(()),
            },
            r is Ok ==> final(self)@ == old(self)@.connect(room1, door1, room2, door2),
            r is Err ==> final(self)@ == old(self)@,
    {
        if !self.has_door(room1, door1) {
            return Err(ConnectError::NoOrigin);
        }
        if !self.has_door(room2, door2) {
            return Err(ConnectError::NoDestination);
        }
        if room1 == room2 && door1 == door2 {
            return Err(ConnectError::SameDoor);
        }
        if let Some(t) = self.door(room1, door1).target {
            return Err(ConnectError::OriginInUse(t));
        }
        if let Some(t) = self.door(room2, door2).target {
            return Err(ConnectError::DestinationInUse(t));
        }
        self.connect(room1, door1, room2, door2);
        Ok(())
    }

    /// The tile at an address: none when the room does not exist, the room's
    /// sentinel when the cell does not.
    pub fn get_tile(&self, ta: &TileAddress) -> (t: Option<Tile>)
        requires
            self.wf(),
        ensures
            t == self@.get_tile(*ta),
    {
        match self.rooms.get(&ta.room_id) {
            Some(room) => Some(room.map.get(ta.iy, ta.ix)),
            None => None,
        }
    }

    /// Places a tile at an address, as `Room::modify` does. Nothing happens
    /// when the room does not exist.
    pub fn set_tile(&mut self, ta: &TileAddress, tile: Tile)
        requires
            old(self).wf(),
            old(self)@.can_set_tile(*ta, tile),
        ensures
            final(self).wf(),
            final(self)@ == old(self)@.set_tile(*ta, tile),
    {
        match self.rooms.remove(&ta.room_id) {
            Some(room) => {
                let mut room = room;
                let _ = room.modify(ta.iy, ta.ix, tile);
                let ghost rv = room@;
                self.rooms.insert(ta.room_id, room);
                assert(self@.rooms =~= old(self)@.rooms.insert(ta.room_id, rv));
            },
            None => {
                assert(self@.rooms =~= old(self)@.rooms);
            },
        }
    }

    /// Overwrites the tile at `(iy, ix)` of room `room`, which must exist,
    /// without touching the room's door index.
    pub fn overwrite(&mut self, room: usize, iy: usize, ix: usize, tile: Tile)
        requires
            old(self).wf(),
            old(self)@.rooms.contains_key(room),
            old(self)@.rooms[room].keeps_doors(iy as int, ix as int, tile),
        ensures
            final(self).wf(),
            final(self)@ == old(self)@.with_room(
                room,
                old(self)@.rooms[room].with_tile(iy as int, ix as int, tile),
            ),
    {
        let mut r: Room = match self.rooms.remove(&room) {
            Some(r) => r,
            None => vstd::pervasive::unreached(),
        };
        r.overwrite(iy, ix, tile);
        let ghost rv = r@;
        self.rooms.insert(room, r);
        assert(self@.rooms =~= old(self)@.rooms.insert(room, rv));
    }

    /// Gives room `id` another name. Nothing happens when the room does not
    /// exist.
    pub fn rename_room(&mut self, id: usize, name: &str)
        requires
            old(self).wf(),
        ensures
            final(self).wf(),
            final(self)@ == if old(self)@.rooms.contains_key(id) {
                old(self)@.with_room(id, RoomView { name: name@, ..old(self)@.rooms[id] })
            } else {
                old(self)@
            },
    {
        match self.rooms.remove(&id) {
            Some(room) => {
                let mut room = room;
                assert(old(self).rooms@.contains_key(id) && old(self)@.rooms.contains_key(id));
                room.name = String::from_str(name);
                let ghost rv = room@;
                self.rooms.insert(id, room);
                assert(self@.rooms =~= old(self)@.rooms.insert(id, rv));
            },
            None => {
                assert(self@.rooms =~= old(self)@.rooms);
            },
        }
    }

    /// Advances the animation of room `id` by one tick. Nothing happens
    /// when the room does not exist.
    pub fn animate(&mut self, id: usize)
        requires
            old(self).wf(),
        ensures
            final(self).wf(),
            final(self)@ == if old(self)@.rooms.contains_key(id) {
                old(self)@.with_room(id, old(self)@.rooms[id].next())
            } else {
                old(self)@
            },
    {
        match self.rooms.remove(&id) {
            Some(room) => {
                let mut room = room;
                assert(old(self).rooms@.contains_key(id) && old(self)@.rooms.contains_key(id));
                room.next();
                let ghost rv = room@;
                self.rooms.insert(id, room);
                assert(self@.rooms =~= old(self)@.rooms.insert(id, rv));
            },
            None => {
                assert(self@.rooms =~= old(self)@.rooms);
            },
        }
    }

    /// Cuts room `id`, which must exist, down to a window, as `Room::crop`
    /// does.
    pub fn crop_room(&mut self, id: usize, iy0: usize, ny: usize, ix0: usize, nx: usize)
        requires
            old(self).wf(),
            old(self)@.rooms.contains_key(id),
            old(self)@.rooms[id].can_crop(iy0 as int, ny as int, ix0 as int, nx as int),
        ensures
            final(self).wf(),
            final(self)@ == old(self)@.with_room(
                id,
                old(self)@.rooms[id].crop(iy0 as int, ny as int, ix0 as int, nx as int),
            ),
    {
        let mut r: Room = match self.rooms.remove(&id) {
            Some(r) => r,
            None => vstd::pervasive::unreached(),
        };
        let ghost before = r@;
        r.crop(iy0, ny, ix0, nx);
        proof {
            before.lemma_crop_is(iy0 as int, ny as int, ix0 as int, nx as int, r@);
        }
        let ghost rv = r@;
        self.rooms.insert(id, r);
        assert(self@.rooms =~= old(self)@.rooms.insert(id, rv));
    }

    /// Whether the world is well-formed.
    pub fn check(&self) -> (ok: bool)
        ensures
            ok == self.wf(),
    {
        let mut ok: bool = true;
        let ghost ks: Seq<&usize> = spec_keys_iter(&self.rooms).remaining();
        let ghost mut idx: int = 0;
        proof {
            axiom_spec_keys_iter(&self.rooms);
        }
        for k in it: self.rooms.keys()
            invariant
                it.seq() == ks,
                idx == it.index(),
                ks.unref().to_set() == self.rooms@.dom(),
                ok <==> forall|n: int| 0 <= n < idx ==> self.room_ok(*#[trigger] ks[n]),
        {
            let id: usize = *k;
            assert(self.rooms@.contains_key(id)) by {
                assert(ks.unref()[idx] == id);
                assert(ks.unref().to_set().contains(id));
            }
            let good: bool = match self.rooms.get(k) {
                Some(room) => room.id == id && room.check(),
                None => false,
            };
            ok = ok && good;
            proof {
                idx = idx + 1;
            }
        }
        proof {
            let s = ks.unref();
            if ok {
                assert forall|id: usize| #[trigger] self.rooms@.contains_key(id) implies self.room_ok(
                    id,
                ) by {
                    assert(s.to_set().contains(id));
                    let n = choose|n: int| 0 <= n < s.len() && s[n] == id;
                    assert(self.room_ok(*ks[n]));
                }
                assert forall|k: usize| #[trigger] self@.rooms.contains_key(k) implies self@.rooms[k].wf()
                    && self@.rooms[k].id == k by {
                    assert(self.room_ok(k));
                }
            } else {
                let n = choose|n: int| 0 <= n < idx && !self.room_ok(*#[trigger] ks[n]);
                assert(s[n] == *ks[n]);
                assert(s.to_set().contains(*ks[n]));
                assert(self.rooms@.contains_key(*ks[n]));
                assert(self@.rooms.contains_key(*ks[n]));
            }
        }
        ok
    }

    /// The room filed under `id` is well-formed and carries that id.
    pub open spec fn room_ok(&self, id: usize) -> bool {
        self.rooms@[id].wf() && self.rooms@[id].id == id
    }
}

} // verus!
