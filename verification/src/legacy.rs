//! The line-oriented text format for worlds.
//!
//! A file is a list of statements, one per line, read until `END`:
//!
//! ```text
//! ROOM <id>
//! <name>
//!  <row of characters>
//!  ...
//! ENDROOM
//! CONN <room1> <door1> <room2> <door2>
//! LOCK <room> <door> <object character>
//! START <room>
//! END
//! ```
//!
//! Lines of white space and lines that start with `//` say nothing. The words
//! of a statement are separated by single spaces. Each row of a room starts
//! with a space that is not part of the row.

use vstd::prelude::*;
use vstd::string::StrSliceExecFns;
use crate::legend::{
    described, description_ok, first_problem, lemma_first_problem_unique, room_of, start_of,
    Description, RoomError,
};
use crate::mini_rng::{next_state, MiniRNG};
use crate::object::Object;
use crate::room::Room;
use crate::scan::{
    chars_of, is_idle, parse_usize, same_text, spec_is_idle, spec_parse_usize, split, split_on,
};
use crate::world::{ConnectError, World, WorldView};

verus! {

/// Why a text does not describe a world. Lines are counted from one.
#[derive(PartialEq, Eq, Structural, Copy, Clone, Debug)]
pub enum LoadError {
    /// The text ended before `END`, after this many lines.
    UnexpectedEnd { line: usize },
    /// A word on this line should be a number and is not.
    BadInteger { line: usize },
    /// The last word of this `LOCK` line is not the character of an object.
    InvalidObject { line: usize },
    /// This line is no statement.
    InvalidStanza { line: usize },
    /// This line, inside a room, is neither a row nor `ENDROOM`.
    InvalidRoomLine { line: usize },
    /// The rows of the room that ends on this line do not make a room.
    BadRoom { line: usize, problem: RoomError },
    /// The doors named on this line cannot be connected.
    BadConnection { line: usize, problem: ConnectError },
    /// The door named on this `LOCK` line does not exist.
    NoSuchDoor { line: usize },
}

/// What a statement leads to.
pub enum Outcome {
    /// The statement was `END`.
    Done,
    /// Reading goes on at line index `next` with this world.
    Go { next: int, world: WorldView },
    /// The statement is in error.
    Fail(LoadError),
}

/// A line of a room body: it starts with a space.
pub open spec fn is_row(line: Seq<char>) -> bool {
    line.len() > 0 && line[0] == ' '
}

/// How many rows follow one another from line index `k` on.
pub open spec fn body_len(lines: Description, k: int) -> nat
    decreases lines.len() - k,
{
    if 0 <= k < lines.len() && is_row(lines[k]) {
        1 + body_len(lines, k + 1)
    } else {
        0
    }
}

/// The `m` rows from line index `k` on, without their leading spaces.
pub open spec fn body(lines: Description, k: int, m: nat) -> Description {
    Seq::new(m, |i: int| lines[k + i].skip(1))
}

/// What is wrong with a description that is not sound.
pub open spec fn problem_of(d: Description) -> RoomError {
    choose|e: RoomError| first_problem(d, e)
}

/// `CONN room1 door1 room2 door2` on line `n`: the four numbers are read from
/// left to right, then the doors are connected.
pub open spec fn conn(w: WorldView, words: Seq<Seq<char>>, n: usize) -> Result<WorldView, LoadError> {
    match (
        spec_parse_usize(words[1]),
        spec_parse_usize(words[2]),
        spec_parse_usize(words[3]),
        spec_parse_usize(words[4]),
    ) {
        (Some(r1), Some(d1), Some(r2), Some(d2)) => match w.connect_problem(r1, d1, r2, d2) {
            None => Ok(w.connect(r1, d1, r2, d2)),
            Some(p) => Err(LoadError::BadConnection { line: n, problem: p }),
        },
        _ => Err(LoadError::BadInteger { line: n }),
    }
}

/// `LOCK room door object` on line `n`: the object is read first, then the
/// two numbers, then the door is locked.
pub open spec fn lock(w: WorldView, words: Seq<Seq<char>>, n: usize) -> Result<WorldView, LoadError> {
    if words[3].len() != 1 {
        Err(LoadError::InvalidObject { line: n })
    } else {
        match Object::spec_from_char(words[3][0]) {
            None => Err(LoadError::InvalidObject { line: n }),
            Some(obj) => match (spec_parse_usize(words[1]), spec_parse_usize(words[2])) {
                (Some(r), Some(d)) => if w.has_door(r, d) {
                    Ok(w.lock_door_with(r, d, obj))
                } else {
                    Err(LoadError::NoSuchDoor { line: n })
                },
                _ => Err(LoadError::BadInteger { line: n }),
            },
        }
    }
}

/// `START room` on line `n`: the number must be one, and that is all.
pub open spec fn start(w: WorldView, words: Seq<Seq<char>>, n: usize) -> Result<WorldView, LoadError> {
    match spec_parse_usize(words[1]) {
        Some(_) => Ok(w),
        None => Err(LoadError::BadInteger { line: n }),
    }
}

/// `ROOM id` on the line with index `k`: the next line is the room's name,
/// rows follow up to `ENDROOM`, and only then is the id read and the room
/// built and filed. The first room to put the hero somewhere decides where
/// the hero starts.
pub open spec fn room(w: WorldView, lines: Description, k: int, id_word: Seq<char>) -> Result<
    (int, WorldView),
    LoadError,
> {
    let m = body_len(lines, k + 2);
    let t = k + 2 + m;
    if t >= lines.len() {
        Err(LoadError::UnexpectedEnd { line: lines.len() as usize })
    } else if lines[t] != "ENDROOM"@ {
        Err(LoadError::InvalidRoomLine { line: (t + 1) as usize })
    } else {
        match spec_parse_usize(id_word) {
            None => Err(LoadError::BadInteger { line: (t + 1) as usize }),
            Some(id) => {
                let d = body(lines, k + 2, m);
                if description_ok(d) {
                    Ok(
                        (
                            t + 1,
                            WorldView {
                                rooms: w.rooms.insert(id, room_of(d, id, lines[k + 1], next_state(1))),
                                start: if w.start is Some {
                                    w.start
                                } else {
                                    start_of(d, id)
                                },
                            },
                        ),
                    )
                } else {
                    Err(LoadError::BadRoom { line: (t + 1) as usize, problem: problem_of(d) })
                }
            },
        }
    }
}

/// What the statement on the line with index `k` leads to.
pub open spec fn statement(lines: Description, k: int, w: WorldView) -> Outcome {
    let n = (k + 1) as usize;
    if spec_is_idle(lines[k]) {
        Outcome::Go { next: k + 1, world: w }
    } else {
        let words = split_on(lines[k], ' ');
        if words.len() == 1 && words[0] == "END"@ {
            Outcome::Done
        } else if words.len() == 5 && words[0] == "CONN"@ {
            match conn(w, words, n) {
                Ok(w2) => Outcome::Go { next: k + 1, world: w2 },
                Err(e) => Outcome::Fail(e),
            }
        } else if words.len() == 4 && words[0] == "LOCK"@ {
            match lock(w, words, n) {
                Ok(w2) => Outcome::Go { next: k + 1, world: w2 },
                Err(e) => Outcome::Fail(e),
            }
        } else if words.len() == 2 && words[0] == "START"@ {
            match start(w, words, n) {
                Ok(w2) => Outcome::Go { next: k + 1, world: w2 },
                Err(e) => Outcome::Fail(e),
            }
        } else if words.len() == 2 && words[0] == "ROOM"@ {
            match room(w, lines, k, words[1]) {
                Ok(p) => Outcome::Go { next: p.0, world: p.1 },
                Err(e) => Outcome::Fail(e),
            }
        } else {
            Outcome::Fail(LoadError::InvalidStanza { line: n })
        }
    }
}

/// The world that the lines from index `k` on make of the world `w`.
pub open spec fn run(lines: Description, k: int, w: WorldView) -> Result<WorldView, LoadError>
    decreases lines.len() - k,
{
    if k < 0 || k >= lines.len() {
        Err(LoadError::UnexpectedEnd { line: lines.len() as usize })
    } else {
        match statement(lines, k, w) {
            Outcome::Done => Ok(w),
            Outcome::Go { next, world } => if next > k {
                run(lines, next, world)
            } else {
                Ok(w)
            },
            Outcome::Fail(e) => Err(e),
        }
    }
}

/// The world that a text describes.
pub open spec fn legacy_world(text: Seq<char>) -> Result<WorldView, LoadError> {
    run(split_on(text, '\n'), 0, WorldView { rooms: Map::empty(), start: None })
}

/// Carries out a `CONN` statement.
fn do_conn(world: &mut World, words: &Vec<&str>, n: usize) -> (r: Result<(), LoadError>)
    requires
        old(world).wf(),
        words@.len() == 5,
    ensures
        final(world).wf(),
        match conn(old(world)@, described(words@), n) {
            Ok(w) => r is Ok && final(world)@ == w,
            Err(e) => r == Err::<(), LoadError>(e),
        },
{
    let ghost ws = described(words@);
    assert(ws[1] == words@[1]@ && ws[2] == words@[2]@ && ws[3] == words@[3]@ && ws[4] == words@[4]@);
    let r1 = parse_usize(&chars_of(words[1]));
    let d1 = parse_usize(&chars_of(words[2]));
    let r2 = parse_usize(&chars_of(words[3]));
    let d2 = parse_usize(&chars_of(words[4]));
    match (r1, d1, r2, d2) {
        (Some(r1), Some(d1), Some(r2), Some(d2)) => match world.try_connect(r1, d1, r2, d2) {
            Ok(()) => Ok(()),
            Err(p) => Err(LoadError::BadConnection { line: n, problem: p }),
        },
        _ => Err(LoadError::BadInteger { line: n }),
    }
}

/// Carries out a `LOCK` statement.
fn do_lock(world: &mut World, words: &Vec<&str>, n: usize) -> (r: Result<(), LoadError>)
    requires
        old(world).wf(),
        words@.len() == 4,
    ensures
        final(world).wf(),
        match lock(old(world)@, described(words@), n) {
            Ok(w) => r is Ok && final(world)@ == w,
            Err(e) => r == Err::<(), LoadError>(e),
        },
{
    let ghost ws = described(words@);
    assert(ws[1] == words@[1]@ && ws[2] == words@[2]@ && ws[3] == words@[3]@);
    let cs = chars_of(words[3]);
    if cs.len() != 1 {
        return Err(LoadError::InvalidObject { line: n });
    }
    let obj: Object = match Object::from_char(cs[0]) {
        Ok(o) => o,
        Err(_) => {
            return Err(LoadError::InvalidObject { line: n });
        },
    };
    let r = parse_usize(&chars_of(words[1]));
    let d = parse_usize(&chars_of(words[2]));
    match (r, d) {
        (Some(r), Some(d)) => {
            if world.has_door(r, d) {
                world.lock_door_with(r, d, obj);
                Ok(())
            } else {
                Err(LoadError::NoSuchDoor { line: n })
            }
        },
        _ => Err(LoadError::BadInteger { line: n }),
    }
}

/// The rows that follow one another from line index `from` on, without their
/// leading spaces, and the index of the line after them.
fn read_body<'a>(lines: &Vec<&'a str>, from: usize) -> (r: (Vec<&'a str>, usize))
    requires
        from <= lines@.len(),
    ensures
        r.1 == from + body_len(described(lines@), from as int),
        r.1 <= lines@.len(),
        described(r.0@) == body(described(lines@), from as int, body_len(described(lines@), from as int)),
{
    let ghost ls = described(lines@);
    let mut rows: Vec<&'a str> = Vec::new();
    let mut i: usize = from;
    loop
        invariant
            from <= i <= lines@.len(),
            ls == described(lines@),
            rows@.len() == i - from,
            body_len(ls, from as int) == (i - from) + body_len(ls, i as int),
            forall|j: int| 0 <= j < rows@.len() ==> (#[trigger] rows@[j])@ == ls[from + j].skip(1),
        ensures
            from <= i <= lines@.len(),
            rows@.len() == i - from,
            i - from == body_len(ls, from as int),
            forall|j: int| 0 <= j < rows@.len() ==> (#[trigger] rows@[j])@ == ls[from + j].skip(1),
        decreases lines@.len() - i,
    {
        if i >= lines.len() {
            break;
        }
        let line: &'a str = lines[i];
        assert(ls[i as int] == line@);
        let n: usize = line.unicode_len();
        if n == 0 || line.get_char(0) != ' ' {
            break;
        }
        let row: &'a str = line.substring_char(1, n);
        assert(row@ =~= line@.skip(1));
        rows.push(row);
        i = i + 1;
    }
    assert(described(rows@) =~= body(ls, from as int, body_len(ls, from as int)));
    (rows, i)
}

/// Carries out a `ROOM` statement that stands on the line with index `k`.
fn do_room(world: &mut World, lines: &Vec<&str>, k: usize, id_word: &str) -> (r: Result<usize, LoadError>)
    requires
        old(world).wf(),
        k < lines@.len(),
    ensures
        final(world).wf(),
        match room(old(world)@, described(lines@), k as int, id_word@) {
            Ok(p) => r == Ok::<usize, LoadError>(p.0 as usize) && k < p.0 <= lines@.len() && final(world)@
                == p.1,
            Err(e) => r == Err::<usize, LoadError>(e),
        },
{
    let ghost ls = described(lines@);
    let len: usize = lines.len();
    if k + 1 >= len {
        assert(body_len(ls, k as int + 2) == 0);
        return Err(LoadError::UnexpectedEnd { line: len });
    }
    let name: &str = lines[k + 1];
    assert(ls[k as int + 1] == name@);
    let (rows, t) = read_body(lines, k + 2);
    if t >= len {
        return Err(LoadError::UnexpectedEnd { line: len });
    }
    assert(ls[t as int] == lines@[t as int]@);
    if !same_text(lines[t], "ENDROOM") {
        return Err(LoadError::InvalidRoomLine { line: t + 1 });
    }
    let id: usize = match parse_usize(&chars_of(id_word)) {
        Some(id) => id,
        None => {
            return Err(LoadError::BadInteger { line: t + 1 });
        },
    };
    let mut rng = MiniRNG::new(1);
    match Room::try_new(id, name, rows.as_slice(), &mut rng) {
        Ok(p) => {
            let (room, start) = p;
            world.insert_room(room);
            if world.start.is_none() {
                world.start = start;
            }
            Ok(t + 1)
        },
        Err(e) => {
            proof {
                lemma_first_problem_unique(described(rows@), e, problem_of(described(rows@)));
            }
            Err(LoadError::BadRoom { line: t + 1, problem: e })
        },
    }
}

impl World {
    /// Reads a world from its text.
    pub fn parse_legacy(text: &str) -> (r: Result<World, LoadError>)
        ensures
            match legacy_world(text@) {
                Ok(w) => r matches Ok(world) && world.wf() && world@ == w,
                Err(e) => r matches Err(x) && x == e,
            },
    {
        let lines: Vec<&str> = split(text, '\n');
        let ghost ls = described(lines@);
        assert(ls =~= split_on(text@, '\n'));
        let mut world = World::new();
        assert(world@ == (WorldView { rooms: Map::empty(), start: None }));
        let mut k: usize = 0;
        while k < lines.len()
            invariant
                k <= lines@.len(),
                ls == described(lines@),
                ls == split_on(text@, '\n'),
                world.wf(),
                legacy_world(text@) == run(ls, k as int, world@),
            decreases lines@.len() - k,
        {
            let line: &str = lines[k];
            assert(ls[k as int] == line@);
            let n: usize = k + 1;
            if is_idle(&chars_of(line)) {
                k = k + 1;
            } else {
                let words: Vec<&str> = split(line, ' ');
                let ghost ws = described(words@);
                assert(ws =~= split_on(line@, ' '));
                assert(ws[0] == words@[0]@);
                if words.len() == 1 && same_text(words[0], "END") {
                    return Ok(world);
                } else if words.len() == 5 && same_text(words[0], "CONN") {
                    match do_conn(&mut world, &words, n) {
                        Ok(()) => {
                            k = k + 1;
                        },
                        Err(e) => {
                            return Err(e);
                        },
                    }
                } else if words.len() == 4 && same_text(words[0], "LOCK") {
                    match do_lock(&mut world, &words, n) {
                        Ok(()) => {
                            k = k + 1;
                        },
                        Err(e) => {
                            return Err(e);
                        },
                    }
                } else if words.len() == 2 && same_text(words[0], "START") {
                    assert(ws[1] == words@[1]@);
                    match parse_usize(&chars_of(words[1])) {
                        Some(_) => {
                            k = k + 1;
                        },
                        None => {
                            return Err(LoadError::BadInteger { line: n });
                        },
                    }
                } else if words.len() == 2 && same_text(words[0], "ROOM") {
                    assert(ws[1] == words@[1]@);
                    match do_room(&mut world, &lines, k, words[1]) {
                        Ok(next) => {
                            k = next;
                        },
                        Err(e) => {
                            return Err(e);
                        },
                    }
                } else {
                    return Err(LoadError::InvalidStanza { line: n });
                }
            }
        }
        Err(LoadError::UnexpectedEnd { line: lines.len() })
    }

    /// Replaces this world by the one that a text describes. A text in error
    /// leaves the world as it is.
    pub fn load_legacy(&mut self, text: &str) -> (r: Result<(), LoadError>)
        ensures
            match legacy_world(text@) {
                Ok(w) => r is Ok && final(self).wf() && final(self)@ == w,
                Err(e) => r == Err::<(), LoadError>(e) && *final(self) == *old(self),
            },
    {
        match World::parse_legacy(text) {
            Ok(w) => {
                *self = w;
                Ok(())
            },
            Err(e) => Err(e),
        }
    }
}

} // verus!
