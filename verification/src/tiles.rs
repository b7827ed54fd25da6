//! What a cell of a room can hold.

use vstd::prelude::*;
use vstd::string::StringExecFns;
use crate::object::Object;
use crate::text::{decimal, spec_decimal};

verus! {

/// A visual variant picked once, when the tile is placed.
#[derive(PartialEq, Eq, Structural, Copy, Clone, Debug)]
pub struct Random {
    pub i: u32,
}

impl Random {
    pub fn new(i: u32) -> (r: Self)
        ensures
            r == (Random { i }),
    {
        Random { i }
    }
}

/// A two-level animation counter: `j` counts ticks up to `n`, and each time it
/// gets there `i` moves on to the next of `m` frames.
#[derive(PartialEq, Eq, Structural, Copy, Clone, Debug)]
pub struct Periodic {
    pub i: u16,
    pub m: u16,
    pub j: u16,
    pub n: u16,
}

/// One more than `x`, starting over at zero past the largest 16-bit number.
pub open spec fn succ16(x: u16) -> u16 {
    if x == u16::MAX {
        0
    } else {
        (x + 1) as u16
    }
}

impl Periodic {
    /// Both counters are inside their periods.
    pub open spec fn in_phase(self) -> bool {
        self.i < self.m && self.j < self.n
    }

    /// The counter one tick later.
    pub open spec fn spec_next(self) -> Periodic {
        let j1 = succ16(self.j);
        if j1 == self.n {
            let i1 = succ16(self.i);
            Periodic { i: if i1 == self.m { 0 } else { i1 }, j: 0, ..self }
        } else {
            Periodic { j: j1, ..self }
        }
    }

    /// A counter of `m` frames that each last `n` ticks, at its start.
    pub fn new(m: u16, n: u16) -> (p: Self)
        ensures
            p == (Periodic { i: 0, m, j: 0, n }),
    {
        Periodic { i: 0, m, j: 0, n }
    }

    /// Advances the counter by one tick.
    pub fn next(&mut self)
        ensures
            *final(self) == old(self).spec_next(),
    {
        self.j = self.j.wrapping_add(1);
        if self.j == self.n {
            self.j = 0;
            self.i = self.i.wrapping_add(1);
            if self.i == self.m {
                self.i = 0;
            }
        }
    }

    /// A counter inside its periods stays inside them, and counts as a clock
    /// does: ticks first, frames on every `n`-th tick, around after `m` frames.
    pub proof fn lemma_next_in_phase(self)
        requires
            self.in_phase(),
        ensures
            self.spec_next().in_phase(),
            self.spec_next().m == self.m,
            self.spec_next().n == self.n,
            self.spec_next().j == (self.j + 1) % (self.n as int),
            self.spec_next().i == if self.j + 1 == self.n {
                (self.i + 1) % (self.m as int)
            } else {
                self.i as int
            },
    {
        if self.j + 1 == self.n {
            vstd::arithmetic::div_mod::lemma_mod_self_0(self.n as int);
            if self.i + 1 == self.m {
                vstd::arithmetic::div_mod::lemma_mod_self_0(self.m as int);
            } else {
                vstd::arithmetic::div_mod::lemma_small_mod((self.i + 1) as nat, self.m as nat);
            }
        } else {
            vstd::arithmetic::div_mod::lemma_small_mod((self.j + 1) as nat, self.n as nat);
        }
    }
}

/// The far side of a door: a door of some room.
#[derive(PartialEq, Eq, Structural, Copy, Clone, Debug)]
pub struct Target {
    pub room: usize,
    pub door: usize,
}

/// A door. Its `id` names it within its room.
#[derive(PartialEq, Eq, Structural, Copy, Clone, Debug)]
pub struct Door {
    pub id: usize,
    pub target: Option<Target>,
    pub key: Option<Object>,
    pub locked: bool,
}

#[derive(PartialEq, Eq, Structural, Copy, Clone, Debug)]
pub enum Corner {
    NE,
    SE,
    NW,
    SW,
}

#[derive(PartialEq, Eq, Structural, Copy, Clone, Debug)]
pub enum Tile {
    Empty,
    Brick,
    Rainbow,
    Object(Object),
    Vortex,
    Grass,
    Dirt,
    PyramidStone,
    Window,
    Water(Periodic),
    Fire(Periodic),
    Door(Door),
    Metal,
    Alien,
    MetalRamp(Corner),
    MetalFoot,
    Sky(Random),
}

impl Door {
    /// What a door says of its lock: nothing when it never had a key.
    pub open spec fn spec_lock_text(self) -> Seq<char> {
        match self.key {
            None => Seq::empty(),
            Some(k) => if self.locked {
                "  It's locked, needs "@ + k.spec_name() + " to open."@
            } else {
                "  It was unlocked with "@ + k.spec_name() + "."@
            },
        }
    }

    /// What a door says of where it leads.
    pub open spec fn spec_target_text(self) -> Seq<char> {
        match self.target {
            None => "  This door goes nowhere!"@,
            Some(t) => "  Goes to door "@ + spec_decimal(t.door as nat) + " of room "@
                + spec_decimal(t.room as nat),
        }
    }

    /// A door's description: its number, its lock, its destination.
    pub open spec fn spec_to_string(self) -> Seq<char> {
        "Door number "@ + spec_decimal(self.id as nat) + "."@ + self.spec_lock_text()
            + self.spec_target_text()
    }

    /// Describes the door in a sentence or three.
    pub fn to_string(&self) -> (s: String)
        ensures
            s@ == self.spec_to_string(),
    {
        let mut s: String = String::from_str("Door number ");
        s.append(decimal(self.id).as_str());
        s.append(".");
        match self.key {
            None => {},
            Some(k) => {
                if self.locked {
                    s.append("  It's locked, needs ");
                    s.append(k.name());
                    s.append(" to open.");
                } else {
                    s.append("  It was unlocked with ");
                    s.append(k.name());
                    s.append(".");
                }
            },
        }
        assert(s@ =~= "Door number "@ + spec_decimal(self.id as nat) + "."@ + self.spec_lock_text());
        match self.target {
            None => {
                s.append("  This door goes nowhere!");
            },
            Some(t) => {
                s.append("  Goes to door ");
                s.append(decimal(t.door).as_str());
                s.append(" of room ");
                s.append(decimal(t.room).as_str());
            },
        }
        assert(s@ =~= self.spec_to_string());
        s
    }
}

impl Tile {
    /// The tile one animation tick later: fire and water move on, all else
    /// stays as it is.
    pub open spec fn spec_next(self) -> Tile {
        match self {
            Tile::Fire(p) => Tile::Fire(p.spec_next()),
            Tile::Water(p) => Tile::Water(p.spec_next()),
            _ => self,
        }
    }

    /// The door on this tile; meaningful on door tiles only.
    pub open spec fn door(self) -> Door {
        match self {
            Tile::Door(d) => d,
            _ => Door { id: 0, target: None, key: None, locked: false },
        }
    }

    /// Whether this is a door tile with the given id.
    pub open spec fn is_door_with_id(self, id: usize) -> bool {
        self matches Tile::Door(d) && d.id == id
    }

    /// What the editor shows when the pointer rests on the tile.
    pub open spec fn spec_to_string(self) -> Seq<char> {
        match self {
            Tile::Empty => "Nothing"@,
            Tile::Brick => "A brick"@,
            Tile::Rainbow => "A rainbow"@,
            Tile::Object(o) => o.spec_name(),
            Tile::Vortex => "A vortex"@,
            Tile::Grass => "Grass"@,
            Tile::Dirt => "Dirt"@,
            Tile::PyramidStone => "A Pyramid stone"@,
            Tile::Window => "A window"@,
            Tile::Water(_) => "Water"@,
            Tile::Fire(_) => "Fire"@,
            Tile::Door(d) => d.spec_to_string(),
            Tile::Metal => "Metal"@,
            Tile::Alien => "An alien"@,
            Tile::MetalRamp(_) => "A metal ramp"@,
            Tile::MetalFoot => "A metal foot"@,
            Tile::Sky(_) => "The sky"@,
        }
    }

    /// Advances the tile's animation by one tick.
    pub fn next(&mut self)
        ensures
            *final(self) == old(self).spec_next(),
    {
        match self {
            Tile::Fire(p) => p.next(),
            Tile::Water(p) => p.next(),
            _ => {},
        }
    }

    /// Describes the tile in words.
    pub fn to_string(&self) -> (s: String)
        ensures
            s@ == self.spec_to_string(),
    {
        match self {
            Tile::Empty => String::from_str("Nothing"),
            Tile::Brick => String::from_str("A brick"),
            Tile::Rainbow => String::from_str("A rainbow"),
            Tile::Object(o) => String::from_str(o.name()),
            Tile::Vortex => String::from_str("A vortex"),
            Tile::Grass => String::from_str("Grass"),
            Tile::Dirt => String::from_str("Dirt"),
            Tile::PyramidStone => String::from_str("A Pyramid stone"),
            Tile::Window => String::from_str("A window"),
            Tile::Water(_) => String::from_str("Water"),
            Tile::Fire(_) => String::from_str("Fire"),
            Tile::Door(d) => d.to_string(),
            Tile::Metal => String::from_str("Metal"),
            Tile::Alien => String::from_str("An alien"),
            Tile::MetalRamp(_) => String::from_str("A metal ramp"),
            Tile::MetalFoot => String::from_str("A metal foot"),
            Tile::Sky(_) => String::from_str("The sky"),
        }
    }
}

} // verus!
