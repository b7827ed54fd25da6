//! The hero: where it stands or walks, what it carries, and what happens
//! when it tries to move.
//!
//! The hero names its room by id and looks it up in the world on every move.

use std::collections::VecDeque;
use vstd::prelude::*;
use vstd::string::StringExecFns;
use crate::facing::Facing;
use crate::object::Object;
use crate::position::Position;
use crate::sounds::Sounds;
use crate::tiles::{Door, Tile};
use crate::world::{World, WorldView};

verus! {

/// How many ticks the slowness that ice cream brings lasts.
pub const FAT_PENALTY: usize = 256;

/// How many ticks a step takes.
pub const STEPS_NORMAL: usize = 8;

/// How many ticks a step takes while the hero is fat.
pub const STEPS_FAT: usize = 32;

pub open spec fn msg_won(name: Seq<char>) -> Seq<char> {
    "CONGRATULATIONS "@ + name + " YOU WON!"@
}

pub open spec fn msg_eat(o: Object) -> Seq<char> {
    "YOU EAT "@ + o.spec_name()
}

pub open spec fn msg_eat_fat(o: Object) -> Seq<char> {
    "YOU EAT "@ + o.spec_name() + " AND GET FAT.  WALK TO LOSE WEIGHT"@
}

pub open spec fn msg_take(o: Object) -> Seq<char> {
    "YOU TAKE "@ + o.spec_name()
}

pub open spec fn msg_already(o: Object) -> Seq<char> {
    "YOU ARE ALREADY CARRYING "@ + o.spec_name()
}

pub open spec fn msg_unlock(k: Object) -> Seq<char> {
    "YOU UNLOCK THE DOOR WITH "@ + k.spec_name()
}

pub open spec fn msg_need(k: Object) -> Seq<char> {
    "YOU NEED "@ + k.spec_name()
}

pub open spec fn msg_forever() -> Seq<char> {
    "THE DOOR IS FOREVER LOCKED"@
}

pub open spec fn msg_not_installed() -> Seq<char> {
    "THIS DOOR HAS NOT BEEN INSTALLED CORRECTLY"@
}

pub open spec fn msg_nowhere() -> Seq<char> {
    "THIS DOOR LEADS NOWHERE"@
}

pub open spec fn msg_drop(o: Object) -> Seq<char> {
    "YOU DROP "@ + o.spec_name()
}

pub open spec fn msg_cannot_drop(o: Object) -> Seq<char> {
    "YOU CANNOT DROP "@ + o.spec_name() + " OVER THAT"@
}

pub open spec fn msg_edge() -> Seq<char> {
    "YOU CANNOT DROP THINGS OVER THE EDGE"@
}

pub open spec fn msg_walking() -> Seq<char> {
    "YOU CANNOT DROP THINGS WHILE WALKING"@
}

pub open spec fn msg_nothing() -> Seq<char> {
    "YOU HAVE NOTHING TO DROP"@
}

/// The mathematical content of the hero.
pub struct HeroView {
    pub room: usize,
    pub position: Position,
    pub carrying: Option<Object>,
    pub travel_request: Option<(isize, isize)>,
    pub name: Seq<char>,
    pub message: Seq<char>,
    pub fat: usize,
    pub won: bool,
    pub coins: usize,
    pub foods: usize,
    pub sounds: Seq<Sounds>,
}

impl HeroView {
    /// A walk in progress has not reached its last step yet.
    pub open spec fn wf(self) -> bool {
        self.position matches Position::Walking { step, total, .. } ==> step < total
    }

    /// The counter that taking up `obj` raises, if it raises one, can still
    /// go up: foods for a food, coins for a coin.
    pub open spec fn can_carry(self, obj: Object) -> bool {
        &&& obj.spec_is_food() ==> self.foods < usize::MAX
        &&& obj == Object::Coin ==> self.coins < usize::MAX
    }

    /// A step from `(hi0, hj0)` by `di` rows and `dj` columns can be tried:
    /// if it leads onto an object that the hero may take, the counter for it
    /// can still go up. Any other step can always be tried.
    pub open spec fn can_step_from(self, world: WorldView, hi0: usize, hj0: usize, di: int, dj: int) -> bool {
        let rm = world.rooms[self.room];
        (0 <= hi0 + di < rm.rows && 0 <= hj0 + dj < rm.cols) ==> (rm.map.at(hi0 + di, hj0 + dj) matches Tile::Object(
            o,
        ) ==> (self.may_take(o) ==> self.can_carry(o)))
    }

    /// A move by `di` rows and `dj` columns can be tried.
    pub open spec fn can_travel(self, world: WorldView, di: int, dj: int) -> bool {
        match self.position {
            Position::Block(hi0, hj0, _) => self.can_step_from(world, hi0, hj0, di, dj),
            Position::Walking { .. } => true,
        }
    }

    /// The pending request, if there is one, can be tried.
    pub open spec fn can_pending(self, world: WorldView) -> bool {
        match self.travel_request {
            Some((di, dj)) => self.can_travel(world, di as int, dj as int),
            None => true,
        }
    }

    /// A tick can be made: the request that it tries, of a standing hero at
    /// once and of a walking hero on arrival, can be tried.
    pub open spec fn can_tick(self, world: WorldView) -> bool {
        match self.position {
            Position::Block(_, _, _) => self.can_pending(world),
            Position::Walking { to, step, total, .. } => step + 1 == total ==> match self.travel_request {
                Some((di, dj)) => self.can_step_from(world, to.0, to.1, di as int, dj as int),
                None => true,
            },
        }
    }

    /// How the hero starts out in a world: standing on the world's starting
    /// tile, looking right, with empty hands.
    pub open spec fn starting(world: WorldView, name: Seq<char>) -> HeroView {
        HeroView {
            room: world.start->0.room_id,
            position: Position::Block(world.start->0.iy, world.start->0.ix, Facing::Right),
            carrying: None,
            travel_request: None,
            name,
            message: Seq::empty(),
            fat: 0,
            won: false,
            coins: 0,
            foods: 0,
            sounds: Seq::empty(),
        }
    }

    pub open spec fn say(self, msg: Seq<char>) -> HeroView {
        HeroView { message: msg, ..self }
    }

    pub open spec fn sound(self, snd: Sounds) -> HeroView {
        HeroView { sounds: self.sounds.push(snd), ..self }
    }

    /// How many ticks a step that begins now will take.
    pub open spec fn total_steps(self) -> usize {
        if self.fat > 0 {
            STEPS_FAT
        } else {
            STEPS_NORMAL
        }
    }

    /// The hero after taking up `obj`: food is eaten, and ice cream makes
    /// fat; a coin is counted; anything else ends up in the hero's hands.
    pub open spec fn carry(self, obj: Object) -> HeroView {
        if obj.spec_is_food() {
            let h = self.sound(Sounds::EatFood);
            if obj.spec_is_fattening() {
                HeroView {
                    fat: FAT_PENALTY,
                    message: msg_eat_fat(obj),
                    foods: (self.foods + 1) as usize,
                    ..h
                }
            } else {
                HeroView { message: msg_eat(obj), foods: (self.foods + 1) as usize, ..h }
            }
        } else if obj == Object::Coin {
            HeroView { coins: (self.coins + 1) as usize, ..self.sound(Sounds::PickUpCoin) }
        } else {
            HeroView { carrying: Some(obj), message: msg_take(obj), ..self.sound(Sounds::PickUpObject) }
        }
    }

    /// The hero setting out from `from` to the neighbouring cell `to`.
    pub open spec fn walk(self, from: (usize, usize), to: (usize, usize), total: usize) -> HeroView {
        HeroView { position: Position::Walking { from, to, step: 0, total }, ..self }
    }

    /// The hero may take the object: its hands are empty, or the object is
    /// one that never stays in the hands.
    pub open spec fn may_take(self, o: Object) -> bool {
        self.carrying is None || o.spec_is_consumable()
    }

    /// The hero holds the key that the locked door asks for.
    pub open spec fn holds_key(self, d: Door) -> bool {
        d.key matches Some(k) && self.carrying == Some(k)
    }

    /// The hero passes the door's lock: the door is not locked, or the hero
    /// holds its key. A locked door without a key lets nobody pass.
    pub open spec fn passes_lock(self, d: Door) -> bool {
        !d.locked || self.holds_key(d)
    }

    /// The hero after facing the lock of a door: the key, if needed and held,
    /// is used up; if needed and not held, the hero is told what is missing.
    pub open spec fn at_lock(self, d: Door) -> HeroView {
        if !d.locked {
            self
        } else {
            match d.key {
                Some(k) => if self.carrying == Some(k) {
                    HeroView { carrying: None, message: msg_unlock(k), ..self }
                } else {
                    self.say(msg_need(k))
                },
                None => self.say(msg_forever()),
            }
        }
    }

    /// Where the far side of a door is: the target room must exist and know
    /// the target door.
    pub open spec fn far_side(world: WorldView, d: Door) -> Option<(usize, usize, usize)> {
        match d.target {
            Some(t) => if world.has_door(t.room, t.door) {
                Some((t.room, world.rooms[t.room].doors[t.door].0, world.rooms[t.room].doors[t.door].1))
            } else {
                None
            },
            None => None,
        }
    }

    /// The hero after going through a door whose lock it has passed: moved
    /// to the far side at once, or told why the door leads nowhere.
    pub open spec fn through(self, world: WorldView, d: Door, f: Facing) -> HeroView {
        match HeroView::far_side(world, d) {
            Some((room, hi, hj)) => HeroView {
                room,
                travel_request: None,
                position: Position::Block(hi, hj, f),
                ..self
            }.sound(Sounds::GoThroughDoor),
            None => if d.target is None {
                self.say(msg_not_installed())
            } else {
                self.say(msg_nowhere())
            },
        }
    }

    /// Hero and world after the hero, standing at `from` and looking `f`, has
    /// tried to step onto the cell `to` of its room.
    pub open spec fn step_onto(self, world: WorldView, from: (usize, usize), f: Facing, to: (usize, usize)) -> (
        HeroView,
        WorldView,
    ) {
        let rm = world.rooms[self.room];
        match rm.map.at(to.0 as int, to.1 as int) {
            Tile::Empty => (self.walk(from, to, self.total_steps()), world),
            Tile::Rainbow => (HeroView { won: true, message: msg_won(self.name), ..self }, world),
            Tile::Object(o) => if self.may_take(o) {
                (
                    self.carry(o).walk(from, to, self.total_steps()),
                    world.with_room(self.room, rm.with_tile(to.0 as int, to.1 as int, Tile::Empty)),
                )
            } else {
                (self.say(msg_already(self.carrying->0)), world)
            },
            Tile::Door(d) => if self.passes_lock(d) {
                let open = Door { locked: false, ..d };
                let w = world.with_room(
                    self.room,
                    rm.with_tile(to.0 as int, to.1 as int, Tile::Door(open)),
                );
                (self.at_lock(d).through(w, open, f), w)
            } else {
                (self.at_lock(d), world)
            },
            _ => (self, world),
        }
    }

    /// Hero and world after an attempt to move by `di` rows and `dj` columns.
    /// Nothing happens while walking, or when the move leads off the grid.
    pub open spec fn travel(self, world: WorldView, di: int, dj: int) -> (HeroView, WorldView) {
        match self.position {
            Position::Walking { .. } => (self, world),
            Position::Block(hi0, hj0, f) => {
                let rm = world.rooms[self.room];
                if 0 <= hi0 + di < rm.rows && 0 <= hj0 + dj < rm.cols {
                    self.step_onto(world, (hi0, hj0), f, ((hi0 + di) as usize, (hj0 + dj) as usize))
                } else {
                    (self, world)
                }
            },
        }
    }

    /// Hero and world after the pending travel request, if there is one, has
    /// been tried.
    pub open spec fn pending(self, world: WorldView) -> (HeroView, WorldView) {
        match self.travel_request {
            None => (self, world),
            Some((di, dj)) => self.travel(world, di as int, dj as int),
        }
    }

    /// The hero with one tick of fat less, if it had any.
    pub open spec fn slimmed(self) -> HeroView {
        HeroView {
            fat: if self.fat > 0 {
                (self.fat - 1) as usize
            } else {
                0
            },
            ..self
        }
    }

    /// Hero and world one tick later. A standing hero tries the pending
    /// request, and that is all. A walking hero loses a tick of fat and
    /// advances a step; with the last step it arrives, tries the pending
    /// request again and is heard walking.
    pub open spec fn tick(self, world: WorldView) -> (HeroView, WorldView) {
        match self.position {
            Position::Block(_, _, _) => self.pending(world),
            Position::Walking { from, to, step, total } => {
                if step + 1 == total {
                    let arrived = HeroView {
                        position: Position::Block(to.0, to.1, self.position.spec_facing()),
                        ..self.slimmed()
                    };
                    let (h, w) = arrived.pending(world);
                    (h.sound(Sounds::Walk), w)
                } else {
                    (
                        HeroView {
                            position: Position::Walking { from, to, step: (step + 1) as usize, total },
                            ..self.slimmed()
                        },
                        world,
                    )
                }
            },
        }
    }

    /// The hero after a direction key went down: a standing hero turns at
    /// once, and the direction becomes the pending request.
    pub open spec fn start(self, di: isize, dj: isize) -> HeroView {
        HeroView {
            position: match self.position {
                Position::Block(hi, hj, _) => Position::Block(
                    hi,
                    hj,
                    Facing::spec_from_deltas(di as int, dj as int),
                ),
                p => p,
            },
            travel_request: Some((di, dj)),
            ..self
        }
    }

    /// The hero after a direction key came up: the request is dropped if it
    /// is for that direction.
    pub open spec fn stop(self, di: isize, dj: isize) -> HeroView {
        if self.travel_request == Some((di, dj)) {
            HeroView { travel_request: None, ..self }
        } else {
            self
        }
    }

    /// Hero and world after the hero has tried to put down what it carries
    /// on the cell in front of it.
    pub open spec fn drop(self, world: WorldView) -> (HeroView, WorldView) {
        match self.position {
            Position::Walking { .. } => (self.say(msg_walking()), world),
            Position::Block(hi0, hj0, f) => match self.carrying {
                None => (self.say(msg_nothing()), world),
                Some(obj) => {
                    let rm = world.rooms[self.room];
                    let hi = hi0 + f.spec_to_deltas().0;
                    let hj = hj0 + f.spec_to_deltas().1;
                    if 0 <= hi < rm.rows && 0 <= hj < rm.cols {
                        if rm.map.at(hi, hj) == Tile::Empty {
                            (
                                HeroView { carrying: None, message: msg_drop(obj), ..self },
                                world.with_room(self.room, rm.with_tile(hi, hj, Tile::Object(obj))),
                            )
                        } else {
                            (self.say(msg_cannot_drop(obj)), world)
                        }
                    } else {
                        (self.say(msg_edge()), world)
                    }
                },
            },
        }
    }

    /// Trying to move keeps hero and world well-formed and the hero in a room
    /// of the world. A hero that is left standing has eaten and pocketed
    /// nothing.
    pub proof fn lemma_travel_wf(self, world: WorldView, di: int, dj: int)
        requires
            self.wf(),
            world.wf(),
            world.rooms.contains_key(self.room),
        ensures
            self.travel(world, di, dj).0.wf(),
            self.travel(world, di, dj).1.wf(),
            self.travel(world, di, dj).1.rooms.contains_key(self.travel(world, di, dj).0.room),
            self.travel(world, di, dj).1.rooms.dom() == world.rooms.dom(),
            self.travel(world, di, dj).0.position is Block ==> self.travel(world, di, dj).0.coins
                == self.coins && self.travel(world, di, dj).0.foods == self.foods,
            self.travel(world, di, dj).0.name == self.name,
    {
        if let Position::Block(hi0, hj0, f) = self.position {
            let rm = world.rooms[self.room];
            let hi = hi0 + di;
            let hj = hj0 + dj;
            if 0 <= hi < rm.rows && 0 <= hj < rm.cols {
                let t = rm.map.at(hi, hj);
                match t {
                    Tile::Object(o) => {
                        if self.may_take(o) {
                            rm.lemma_with_tile(hi, hj, Tile::Empty);
                            let w = world.with_room(self.room, rm.with_tile(hi, hj, Tile::Empty));
                            assert(w.rooms.dom() =~= world.rooms.dom());
                        }
                    },
                    Tile::Door(d) => {
                        if self.passes_lock(d) {
                            let open = Door { locked: false, ..d };
                            rm.lemma_with_tile(hi, hj, Tile::Door(open));
                            let w = world.with_room(self.room, rm.with_tile(hi, hj, Tile::Door(open)));
                            assert(w.rooms.dom() =~= world.rooms.dom());
                        }
                    },
                    _ => {},
                }
            }
        }
    }

    /// A hero that a try of the pending request leaves standing is left as
    /// it is by another try, and so is the world: while a key is held against
    /// a wall or a closed door, tick after tick changes nothing.
    pub proof fn lemma_pending_settles(self, world: WorldView)
        requires
            self.wf(),
            world.wf(),
            world.rooms.contains_key(self.room),
        ensures
            self.pending(world).0.position is Block ==> self.pending(world).0.pending(
                self.pending(world).1,
            ) == self.pending(world),
    {
        let (h1, w1) = self.pending(world);
        if let Some((di, dj)) = self.travel_request {
            if let Position::Block(hi0, hj0, f) = self.position {
                let rm = world.rooms[self.room];
                let hi = hi0 + di;
                let hj = hj0 + dj;
                if 0 <= hi < rm.rows && 0 <= hj < rm.cols {
                    if let Tile::Door(d) = rm.map.at(hi, hj) {
                        if self.passes_lock(d) {
                            let open = Door { locked: false, ..d };
                            let rm1 = rm.with_tile(hi, hj, Tile::Door(open));
                            rm.map.lemma_set_at(hi, hj, Tile::Door(open));
                            if HeroView::far_side(w1, open) is None {
                                let rm2 = rm1.with_tile(hi, hj, Tile::Door(open));
                                rm1.map.lemma_set_at(hi, hj, Tile::Door(open));
                                assert forall|a: int, b: int| rm1.map.in_bounds(a, b) implies rm2.map.at(
                                    a,
                                    b,
                                ) == rm1.map.at(a, b) by {}
                                rm2.map.lemma_ext_equal(rm1.map);
                                assert(w1.rooms.insert(self.room, rm2) =~= w1.rooms);
                            }
                        }
                    }
                }
            }
        }
    }

    /// Ice cream sets the fat counter to the full penalty, whatever it was.
    /// It counts as one more food, is heard being eaten, and leaves the
    /// hero's hands and coins as they were.
    pub proof fn lemma_ice_cream_fattens(self)
        ensures
            self.carry(Object::IceCream).fat == 256,
            self.carry(Object::IceCream).carrying == self.carrying,
            self.carry(Object::IceCream).coins == self.coins,
            self.foods < usize::MAX ==> self.carry(Object::IceCream).foods == self.foods + 1,
            self.carry(Object::IceCream).sounds == self.sounds.push(Sounds::EatFood),
            self.carry(Object::IceCream).position == self.position,
            self.carry(Object::IceCream).room == self.room,
    {
    }

    /// A step onto an empty tile takes thirty-two ticks while the fat
    /// counter is above zero and eight once it is back at zero.
    pub proof fn lemma_walk_length(self, world: WorldView, di: int, dj: int)
        requires
            self.position matches Position::Block(hi0, hj0, _) && 0 <= hi0 + di
                < world.rooms[self.room].rows && 0 <= hj0 + dj < world.rooms[self.room].cols
                && world.rooms[self.room].map.at(hi0 + di, hj0 + dj) == Tile::Empty,
        ensures
            self.travel(world, di, dj).1 == world,
            self.travel(world, di, dj).0 == (HeroView {
                position: self.travel(world, di, dj).0.position,
                ..self
            }),
            self.travel(world, di, dj).0.position matches Position::Walking { from, to, step, total }
                && step == 0 && total == (if self.fat > 0 {
                32usize
            } else {
                8usize
            }) && self.position == Position::Block(from.0, from.1, self.position.spec_facing()) && to.0
                == from.0 + di && to.1 == from.1 + dj,
    {
    }

    /// Each tick of a walk takes one off the fat counter until it is at zero,
    /// and in the middle of a walk advances the walk by one step and changes
    /// nothing else. (On the tick that ends the walk a pending request is
    /// tried again, and the step it begins may lead onto more ice cream.)
    pub proof fn lemma_tick_slims(self, world: WorldView)
        requires
            self.position matches Position::Walking { step, total, .. } && (step + 1 != total
                || self.travel_request is None),
        ensures
            self.tick(world).0.fat == if self.fat > 0 {
                self.fat - 1
            } else {
                0
            },
            self.tick(world).1 == world,
            self.position matches Position::Walking { from, to, step, total } ==> (step + 1 != total
                ==> self.tick(world).0 == (HeroView {
                position: Position::Walking { from, to, step: (step + 1) as usize, total },
                ..self.slimmed()
            })),
    {
    }

    /// A tick of a standing hero only tries the pending request: a hero with
    /// a request towards an empty tile ends the tick at the first step of the
    /// walk, as fat as it was and without a sound; a hero without a request
    /// is not changed at all.
    pub proof fn lemma_tick_standing(self, world: WorldView)
        requires
            self.position is Block,
        ensures
            self.tick(world) == self.pending(world),
            self.travel_request is None ==> self.tick(world) == (self, world),
            self.travel_request matches Some((di, dj)) ==> (self.position matches Position::Block(
                hi0,
                hj0,
                _,
            ) ==> (0 <= hi0 + di < world.rooms[self.room].rows && 0 <= hj0 + dj
                < world.rooms[self.room].cols && world.rooms[self.room].map.at(hi0 + di, hj0 + dj)
                == Tile::Empty ==> self.tick(world) == (
                self.walk((hi0, hj0), ((hi0 + di) as usize, (hj0 + dj) as usize), self.total_steps()),
                world,
            ))),
    {
    }

    /// A locked door turns away a hero that does not hold its key: the hero
    /// stays where it stands, the world stays as it is, and the hero is told
    /// which key is needed.
    pub proof fn lemma_locked_door_refuses(self, world: WorldView, di: int, dj: int, d: Door)
        requires
            self.position matches Position::Block(hi0, hj0, _) && 0 <= hi0 + di
                < world.rooms[self.room].rows && 0 <= hj0 + dj < world.rooms[self.room].cols
                && world.rooms[self.room].map.at(hi0 + di, hj0 + dj) == Tile::Door(d),
            d.locked,
            !self.holds_key(d),
        ensures
            self.travel(world, di, dj).1 == world,
            self.travel(world, di, dj).0 == self.say(
                match d.key {
                    Some(k) => msg_need(k),
                    None => msg_forever(),
                },
            ),
    {
    }

    /// A locked door lets in a hero that holds its key: the key is used up
    /// and the door stays unlocked from then on, with its id, key and target
    /// as they were. No other tile and no other room changes.
    pub proof fn lemma_key_unlocks(self, world: WorldView, di: int, dj: int, d: Door)
        requires
            world.wf(),
            world.rooms.contains_key(self.room),
            self.position matches Position::Block(hi0, hj0, _) && 0 <= hi0 + di
                < world.rooms[self.room].rows && 0 <= hj0 + dj < world.rooms[self.room].cols
                && world.rooms[self.room].map.at(hi0 + di, hj0 + dj) == Tile::Door(d),
            d.locked,
            self.holds_key(d),
        ensures
            self.travel(world, di, dj).0.carrying is None,
            self.position matches Position::Block(hi0, hj0, _) && self.travel(world, di, dj).1.rooms[self.room].map.at(
                hi0 + di,
                hj0 + dj,
            ) == Tile::Door(Door { locked: false, ..d }),
            self.position matches Position::Block(hi0, hj0, _) ==> self.travel(world, di, dj).1
                == world.with_room(
                self.room,
                world.rooms[self.room].with_tile(
                    hi0 + di,
                    hj0 + dj,
                    Tile::Door(Door { locked: false, ..d }),
                ),
            ),
            self.position matches Position::Block(hi0, hj0, _) ==> forall|a: int, b: int|
                !(a == hi0 + di && b == hj0 + dj) ==> #[trigger] self.travel(
                    world,
                    di,
                    dj,
                ).1.rooms[self.room].map.at(a, b) == world.rooms[self.room].map.at(a, b),
            forall|k: usize|
                k != self.room && world.rooms.contains_key(k) ==> #[trigger] self.travel(
                    world,
                    di,
                    dj,
                ).1.rooms[k] == world.rooms[k],
            self.travel(world, di, dj).1.rooms[self.room].doors == world.rooms[self.room].doors,
    {
        if let Position::Block(hi0, hj0, f) = self.position {
            let rm = world.rooms[self.room];
            rm.map.lemma_set_at(hi0 + di, hj0 + dj, Tile::Door(Door { locked: false, ..d }));
        }
    }

    /// An unlocked door whose far side exists takes the hero there at once:
    /// the hero stands on the far door, looks where it looked, and has no
    /// travel request left.
    pub proof fn lemma_open_door_teleports(self, world: WorldView, di: int, dj: int, d: Door)
        requires
            world.wf(),
            world.rooms.contains_key(self.room),
            self.position matches Position::Block(hi0, hj0, _) && 0 <= hi0 + di
                < world.rooms[self.room].rows && 0 <= hj0 + dj < world.rooms[self.room].cols
                && world.rooms[self.room].map.at(hi0 + di, hj0 + dj) == Tile::Door(d),
            !d.locked,
            d.target matches Some(t) && world.has_door(t.room, t.door),
        ensures
            self.travel(world, di, dj).0.room == d.target->0.room,
            self.travel(world, di, dj).0.travel_request is None,
            self.travel(world, di, dj).0.position == Position::Block(
                world.rooms[d.target->0.room].doors[d.target->0.door].0,
                world.rooms[d.target->0.room].doors[d.target->0.door].1,
                self.position.spec_facing(),
            ),
            self.travel(world, di, dj).0.sounds == self.sounds.push(Sounds::GoThroughDoor),
    {
        if let Position::Block(hi0, hj0, f) = self.position {
            let rm = world.rooms[self.room];
            rm.lemma_with_tile(hi0 + di, hj0 + dj, Tile::Door(d));
        }
    }
}

/// The hero of the game.
#[derive(Debug)]
pub struct Hero {
    room: usize,
    position: Position,
    carrying: Option<Object>,
    travel_request: Option<(isize, isize)>,
    name: String,
    message: String,
    fat: usize,
    won: bool,
    coins: usize,
    foods: usize,
    sounds: VecDeque<Sounds>,
}

impl View for Hero {
    type V = HeroView;

    closed spec fn view(&self) -> HeroView {
        HeroView {
            room: self.room,
            position: self.position,
            carrying: self.carrying,
            travel_request: self.travel_request,
            name: self.name@,
            message: self.message@,
            fat: self.fat,
            won: self.won,
            coins: self.coins,
            foods: self.foods,
            sounds: self.sounds@,
        }
    }
}

/// `a` followed by `b`.
fn join(a: &str, b: &str) -> (s: String)
    ensures
        s@ == a@ + b@,
{
    let mut s: String = String::from_str(a);
    s.append(b);
    s
}

/// `a` followed by `b` and `c`.
fn join3(a: &str, b: &str, c: &str) -> (s: String)
    ensures
        s@ == a@ + b@ + c@,
{
    let mut s: String = String::from_str(a);
    s.append(b);
    s.append(c);
    s
}

/// `h + d`, if that is a coordinate the machine can hold.
fn shift(h: usize, d: isize) -> (r: Option<usize>)
    ensures
        r == if 0 <= h + d <= usize::MAX {
            Some((h + d) as usize)
        } else {
            None
        },
{
    let s: i128 = h as i128 + d as i128;
    if 0 <= s && s <= usize::MAX as i128 {
        Some(s as usize)
    } else {
        None
    }
}

impl Hero {
    pub fn position(&self) -> (p: Position)
        ensures
            p == self@.position,
    {
        self.position
    }

    pub fn carrying(&self) -> (o: Option<Object>)
        ensures
            o == self@.carrying,
    {
        self.carrying
    }

    pub fn room(&self) -> (r: usize)
        ensures
            r == self@.room,
    {
        self.room
    }

    pub fn foods(&self) -> (n: usize)
        ensures
            n == self@.foods,
    {
        self.foods
    }

    pub fn coins(&self) -> (n: usize)
        ensures
            n == self@.coins,
    {
        self.coins
    }

    pub fn won(&self) -> (b: bool)
        ensures
            b == self@.won,
    {
        self.won
    }

    pub fn message(&self) -> (m: &str)
        ensures
            m@ == self@.message,
    {
        self.message.as_str()
    }

    /// The travel request that is waiting to be carried out.
    pub fn travel_request(&self) -> (r: Option<(isize, isize)>)
        ensures
            r == self@.travel_request,
    {
        self.travel_request
    }

    /// How many ticks of fat are left.
    pub fn fat(&self) -> (n: usize)
        ensures
            n == self@.fat,
    {
        self.fat
    }

    pub fn is_fat(&self) -> (b: bool)
        ensures
            b == (self@.fat > 0),
    {
        self.fat > 0
    }

    /// Takes the most recent sound that has not been played yet.
    pub fn next_sound(&mut self) -> (s: Option<Sounds>)
        ensures
            final(self)@ == (HeroView {
                sounds: if old(self)@.sounds.len() > 0 {
                    old(self)@.sounds.drop_last()
                } else {
                    old(self)@.sounds
                },
                ..old(self)@
            }),
            s == if old(self)@.sounds.len() > 0 {
                Some(old(self)@.sounds.last())
            } else {
                None
            },
    {
        let s = self.sounds.pop_back();
        assert(self.sounds@ =~= if old(self)@.sounds.len() > 0 {
            old(self)@.sounds.drop_last()
        } else {
            old(self)@.sounds
        });
        s
    }

    /// A hero on the world's starting tile, which the world must name and
    /// whose room must exist.
    pub fn new(world: &World, name: &str) -> (h: Self)
        requires
            world@.start matches Some(ta) && world@.rooms.contains_key(ta.room_id),
        ensures
            h@ == HeroView::starting(world@, name@),
            h@.wf(),
            world@.rooms.contains_key(h@.room),
    {
        let ta = match world.start {
            Some(ta) => ta,
            None => vstd::pervasive::unreached(),
        };
        Hero {
            room: ta.room_id,
            position: Position::Block(ta.iy, ta.ix, Facing::Right),
            carrying: None,
            travel_request: None,
            name: String::from_str(name),
            message: String::new(),
            fat: 0,
            coins: 0,
            foods: 0,
            won: false,
            sounds: VecDeque::new(),
        }
    }

    /// Replaces the message shown to the player.
    pub fn say(&mut self, msg: &str)
        ensures
            final(self)@ == old(self)@.say(msg@),
    {
        self.message = String::from_str(msg);
    }

    /// Queues a sound for the front-end.
    pub fn sound(&mut self, snd: Sounds)
        ensures
            final(self)@ == old(self)@.sound(snd),
    {
        self.sounds.push_back(snd);
    }

    /// Takes up an object: eats it, pockets it or holds it.
    pub fn carry(&mut self, obj: Object)
        requires
            old(self)@.can_carry(obj),
        ensures
            final(self)@ == old(self)@.carry(obj),
    {
        if obj.is_food() {
            self.sound(Sounds::EatFood);
            if obj.is_fattening() {
                self.fat = FAT_PENALTY;
                self.message = join3("YOU EAT ", obj.name(), " AND GET FAT.  WALK TO LOSE WEIGHT");
            } else {
                self.message = join("YOU EAT ", obj.name());
            }
            self.foods = self.foods + 1;
        } else if obj == Object::Coin {
            self.sound(Sounds::PickUpCoin);
            self.coins = self.coins + 1;
        } else {
            self.carrying = Some(obj);
            self.sound(Sounds::PickUpObject);
            self.message = join("YOU TAKE ", obj.name());
        }
    }

    /// Puts what the hero carries on the empty tile in front of it, or says
    /// why that cannot be done.
    pub fn drop(&mut self, world: &mut World)
        requires
            old(world).wf(),
            old(world)@.rooms.contains_key(old(self)@.room),
        ensures
            (final(self)@, final(world)@) == old(self)@.drop(old(world)@),
            final(world).wf(),
            final(world)@.rooms.dom() == old(world)@.rooms.dom(),
            old(self)@.wf() ==> final(self)@.wf(),
    {
        match self.position {
            Position::Block(hi0, hj0, f) => match self.carrying {
                None => {
                    self.say("YOU HAVE NOTHING TO DROP");
                },
                Some(obj) => {
                    let d: (isize, isize) = f.to_deltas();
                    let rm = world.get_room(self.room);
                    let spot: Option<(usize, usize)> = match (shift(hi0, d.0), shift(hj0, d.1)) {
                        (Some(hi), Some(hj)) => if hi < rm.rows && hj < rm.cols {
                            Some((hi, hj))
                        } else {
                            None
                        },
                        _ => None,
                    };
                    match spot {
                        Some((hi, hj)) => {
                            if rm.map.get(hi, hj) == Tile::Empty {
                                proof {
                                    world@.rooms[self.room].lemma_with_tile(
                                        hi as int,
                                        hj as int,
                                        Tile::Object(obj),
                                    );
                                }
                                world.overwrite(self.room, hi, hj, Tile::Object(obj));
                                self.carrying = None;
                                self.message = join("YOU DROP ", obj.name());
                                assert(world@.rooms.dom() =~= old(world)@.rooms.dom());
                            } else {
                                self.message = join3("YOU CANNOT DROP ", obj.name(), " OVER THAT");
                            }
                        },
                        None => {
                            self.say("YOU CANNOT DROP THINGS OVER THE EDGE");
                        },
                    }
                },
            },
            Position::Walking { .. } => {
                self.say("YOU CANNOT DROP THINGS WHILE WALKING");
            },
        }
    }

    /// Tries the pending travel request, if there is one.
    pub fn pending(&mut self, world: &mut World)
        requires
            old(self)@.wf(),
            old(self)@.can_pending(old(world)@),
            old(world).wf(),
            old(world)@.rooms.contains_key(old(self)@.room),
        ensures
            (final(self)@, final(world)@) == old(self)@.pending(old(world)@),
            final(self)@.wf(),
            final(world).wf(),
            final(world)@.rooms.contains_key(final(self)@.room),
    {
        match self.travel_request {
            None => {},
            Some((di, dj)) => {
                self.travel(world, di, dj);
            },
        }
    }

    /// Moves the simulation of the hero on by one tick.
    pub fn tick(&mut self, world: &mut World)
        requires
            old(self)@.wf(),
            old(self)@.can_tick(old(world)@),
            old(world).wf(),
            old(world)@.rooms.contains_key(old(self)@.room),
        ensures
            (final(self)@, final(world)@) == old(self)@.tick(old(world)@),
            final(self)@.wf(),
            final(world).wf(),
            final(world)@.rooms.contains_key(final(self)@.room),
    {
        match self.position {
            Position::Block(_, _, _) => {
                self.pending(world);
            },
            Position::Walking { from, to, step, total } => {
                if self.fat > 0 {
                    self.fat = self.fat - 1;
                }
                let step: usize = step + 1;
                if step == total {
                    self.position = Position::Block(to.0, to.1, self.position.facing());
                    self.pending(world);
                    self.sound(Sounds::Walk);
                } else {
                    self.position = Position::Walking { from, to, step, total };
                }
            },
        }
    }

    /// Whether a step from `(hi0, hj0)` can be tried.
    fn can_step_from(&self, world: &World, hi0: usize, hj0: usize, di: isize, dj: isize) -> (b: bool)
        requires
            world.wf(),
            world@.rooms.contains_key(self@.room),
        ensures
            b == self@.can_step_from(world@, hi0, hj0, di as int, dj as int),
    {
        let rm = world.get_room(self.room);
        match (shift(hi0, di), shift(hj0, dj)) {
            (Some(hi), Some(hj)) => {
                if hi < rm.rows && hj < rm.cols {
                    match rm.map.get(hi, hj) {
                        Tile::Object(o) => {
                            let may: bool = self.carrying.is_none() || o.is_consumable();
                            !may || ((!o.is_food() || self.foods < usize::MAX) && (o != Object::Coin
                                || self.coins < usize::MAX))
                        },
                        _ => true,
                    }
                } else {
                    true
                }
            },
            _ => true,
        }
    }

    /// Whether `travel` can be called with these steps in this world.
    pub fn can_travel(&self, world: &World, di: isize, dj: isize) -> (b: bool)
        requires
            world.wf(),
            world@.rooms.contains_key(self@.room),
        ensures
            b == self@.can_travel(world@, di as int, dj as int),
    {
        match self.position {
            Position::Block(hi0, hj0, _) => self.can_step_from(world, hi0, hj0, di, dj),
            Position::Walking { .. } => true,
        }
    }

    /// Whether `tick` can be called in this world.
    pub fn can_tick(&self, world: &World) -> (b: bool)
        requires
            world.wf(),
            world@.rooms.contains_key(self@.room),
        ensures
            b == self@.can_tick(world@),
    {
        match self.travel_request {
            None => true,
            Some((di, dj)) => match self.position {
                Position::Block(hi0, hj0, _) => self.can_step_from(world, hi0, hj0, di, dj),
                Position::Walking { to, step, total, .. } => {
                    step == usize::MAX || step + 1 != total || self.can_step_from(world, to.0, to.1, di, dj)
                },
            },
        }
    }

    /// A direction key went down.
    pub fn start(&mut self, di: isize, dj: isize)
        ensures
            final(self)@ == old(self)@.start(di, dj),
            old(self)@.wf() ==> final(self)@.wf(),
    {
        let f2 = Facing::from_deltas(di, dj);
        match self.position {
            Position::Block(hi, hj, _) => {
                self.position = Position::Block(hi, hj, f2);
            },
            Position::Walking { .. } => {},
        }
        self.travel_request = Some((di, dj));
    }

    /// A direction key came up.
    pub fn stop(&mut self, di: isize, dj: isize)
        ensures
            final(self)@ == old(self)@.stop(di, dj),
            old(self)@.wf() ==> final(self)@.wf(),
    {
        let same: bool = match self.travel_request {
            Some((ri, rj)) => ri == di && rj == dj,
            None => false,
        };
        if same {
            self.travel_request = None;
        }
    }

    /// Tries to move the hero by `di` rows and `dj` columns.
    pub fn travel(&mut self, world: &mut World, di: isize, dj: isize)
        requires
            old(self)@.wf(),
            old(self)@.can_travel(old(world)@, di as int, dj as int),
            old(world).wf(),
            old(world)@.rooms.contains_key(old(self)@.room),
        ensures
            (final(self)@, final(world)@) == old(self)@.travel(old(world)@, di as int, dj as int),
            final(self)@.wf(),
            final(world).wf(),
            final(world)@.rooms.contains_key(final(self)@.room),
    {
        proof {
            self@.lemma_travel_wf(world@, di as int, dj as int);
        }
        let total: usize = if self.is_fat() {
            STEPS_FAT
        } else {
            STEPS_NORMAL
        };
        match self.position {
            Position::Walking { .. } => {},
            Position::Block(hi0, hj0, f) => {
                let rm = world.get_room(self.room);
                let spot: Option<(usize, usize)> = match (shift(hi0, di), shift(hj0, dj)) {
                    (Some(hi), Some(hj)) => if hi < rm.rows && hj < rm.cols {
                        Some((hi, hj))
                    } else {
                        None
                    },
                    _ => None,
                };
                if let Some((hi, hj)) = spot {
                    let tile: Tile = rm.map.get(hi, hj);
                    match tile {
                        Tile::Empty => {
                            self.position = Position::Walking {
                                from: (hi0, hj0),
                                to: (hi, hj),
                                step: 0,
                                total,
                            };
                        },
                        Tile::Rainbow => {
                            self.won = true;
                            self.message = join3("CONGRATULATIONS ", self.name.as_str(), " YOU WON!");
                        },
                        Tile::Object(o) => {
                            let ok: bool = match self.carrying {
                                None => true,
                                Some(o2) => {
                                    if o.is_consumable() {
                                        true
                                    } else {
                                        self.message = join("YOU ARE ALREADY CARRYING ", o2.name());
                                        false
                                    }
                                },
                            };
                            if ok {
                                self.carry(o);
                                world.overwrite(self.room, hi, hj, Tile::Empty);
                                self.position = Position::Walking {
                                    from: (hi0, hj0),
                                    to: (hi, hj),
                                    step: 0,
                                    total,
                                };
                            }
                        },
                        Tile::Door(d) => {
                            let ok: bool = if d.locked {
                                match d.key {
                                    Some(k) => {
                                        let held: bool = match self.carrying {
                                            Some(c) => c == k,
                                            None => false,
                                        };
                                        if held {
                                            self.carrying = None;
                                            self.message = join("YOU UNLOCK THE DOOR WITH ", k.name());
                                            true
                                        } else {
                                            self.message = join("YOU NEED ", k.name());
                                            false
                                        }
                                    },
                                    None => {
                                        self.say("THE DOOR IS FOREVER LOCKED");
                                        false
                                    },
                                }
                            } else {
                                true
                            };
                            if ok {
                                let open = Door { locked: false, ..d };
                                world.overwrite(self.room, hi, hj, Tile::Door(open));
                                match d.target {
                                    None => {
                                        self.say("THIS DOOR HAS NOT BEEN INSTALLED CORRECTLY");
                                    },
                                    Some(t) => {
                                        let far: Option<(usize, usize)> = if world.has_room(t.room) {
                                            world.get_room(t.room).locate_door(t.door)
                                        } else {
                                            None
                                        };
                                        match far {
                                            None => {
                                                self.say("THIS DOOR LEADS NOWHERE");
                                            },
                                            Some(p) => {
                                                self.room = t.room;
                                                self.travel_request = None;
                                                self.position = Position::Block(p.0, p.1, f);
                                                self.sound(Sounds::GoThroughDoor);
                                            },
                                        }
                                    },
                                }
                            }
                        },
                        _ => {},
                    }
                }
            },
        }
    }
}

} // verus!
