//! Rooms drawn as text: one character per tile, one string per row.
//!
//! A space is an empty tile, `H` an empty tile on which the hero starts, a
//! digit a door with that id, `^` a piece of sky whose look is drawn from a
//! random generator, and a fixed table gives the rest.

use std::collections::BTreeMap;
use vstd::prelude::*;
use vstd::string::{StrSliceExecFns, StringExecFns};
use crate::a2::{A2, GridView};
use crate::mini_rng::{next_state, sample_of, MiniRNG};
use crate::object::Object;
use crate::room::{before, door_ids_distinct, indexes, DoorIndex, Room, RoomView};
use crate::scan::{digit_of, spec_digit};
use crate::tiles::{Corner, Door, Periodic, Random, Tile};
use crate::world::TileAddress;

verus! {

/// A room description as contracts see it: rows of characters.
pub type Description = Seq<Seq<char>>;

/// The rows of characters that a slice of strings holds.
pub open spec fn described(a: Seq<&str>) -> Description {
    Seq::new(a.len(), |i: int| a[i]@)
}

/// The tile that a character other than `^` stands for, if it stands for one.
pub open spec fn plain_tile(c: char) -> Option<Tile> {
    if c == ' ' || c == 'H' {
        Some(Tile::Empty)
    } else if c == '#' {
        Some(Tile::Brick)
    } else if c == 'R' {
        Some(Tile::Rainbow)
    } else if c == '~' {
        Some(Tile::Water(Periodic { i: 0, m: 8, j: 0, n: 8 }))
    } else if c == '@' {
        Some(Tile::Vortex)
    } else if c == '.' {
        Some(Tile::Grass)
    } else if c == '%' {
        Some(Tile::Dirt)
    } else if c == '*' {
        Some(Tile::PyramidStone)
    } else if c == 'W' {
        Some(Tile::Window)
    } else if c == 'F' {
        Some(Tile::Fire(Periodic { i: 0, m: 3, j: 0, n: 2 }))
    } else if c == 'q' {
        Some(Tile::MetalRamp(Corner::NW))
    } else if c == 'w' {
        Some(Tile::MetalRamp(Corner::NE))
    } else if c == 'a' {
        Some(Tile::MetalRamp(Corner::SW))
    } else if c == 's' {
        Some(Tile::MetalRamp(Corner::SE))
    } else if c == 'm' {
        Some(Tile::Metal)
    } else if c == 'A' {
        Some(Tile::Alien)
    } else if c == 'x' {
        Some(Tile::MetalFoot)
    } else if c == '^' {
        None
    } else if let Some(id) = spec_digit(c) {
        Some(Tile::Door(Door { id, target: None, key: None, locked: false }))
    } else if let Some(o) = Object::spec_from_char(c) {
        Some(Tile::Object(o))
    } else {
        None
    }
}

/// Whether a character may appear in a room description.
pub open spec fn supported(c: char) -> bool {
    c == '^' || plain_tile(c) is Some
}

/// The state of a generator `n` steps after state `q`.
pub open spec fn nth_state(q: u32, n: nat) -> u32
    decreases n,
{
    if n == 0 {
        q
    } else {
        next_state(nth_state(q, (n - 1) as nat))
    }
}

/// How many pieces of sky a row of characters holds.
pub open spec fn count_sky(s: Seq<char>) -> nat
    decreases s.len(),
{
    if s.len() == 0 {
        0
    } else {
        count_sky(s.drop_last()) + if s.last() == '^' {
            1nat
        } else {
            0nat
        }
    }
}

/// How many pieces of sky the first `i` rows hold.
pub open spec fn sky_rows(d: Description, i: int) -> nat
    decreases i,
{
    if i <= 0 {
        0
    } else {
        sky_rows(d, i - 1) + count_sky(d[i - 1])
    }
}

/// How many pieces of sky come before `(i, j)` when reading row by row.
pub open spec fn sky_before(d: Description, i: int, j: int) -> nat {
    sky_rows(d, i) + if j <= 0 {
        0
    } else {
        count_sky(d[i].take(j))
    }
}

/// The look of the `k`-th piece of sky drawn from a generator in state `q0`:
/// each piece uses up two states and takes one of twenty looks.
pub open spec fn sky_tile(q0: u32, k: nat) -> Tile {
    Tile::Sky(Random { i: sample_of(nth_state(q0, 2 * k), nth_state(q0, 2 * k + 1), 20) as u32 })
}

/// Every piece of sky has one of the twenty looks.
pub proof fn lemma_sky_in_range(q0: u32, k: nat)
    ensures
        sky_tile(q0, k) matches Tile::Sky(r) && r.i < 20,
{
    crate::mini_rng::lemma_sample_below(nth_state(q0, 2 * k), nth_state(q0, 2 * k + 1), 20);
}

/// The tile that a description puts at `(i, j)`. Rows shorter than the first
/// are filled up with empty tiles.
#[verifier::opaque]
pub open spec fn described_tile(d: Description, q0: u32, i: int, j: int) -> Tile {
    if 0 <= j < d[i].len() {
        if d[i][j] == '^' {
            sky_tile(q0, sky_before(d, i, j))
        } else {
            plain_tile(d[i][j])->0
        }
    } else {
        Tile::Empty
    }
}

/// `(r, c)` is a character of the description.
pub open spec fn in_text(d: Description, r: int, c: int) -> bool {
    0 <= r < d.len() && 0 <= c < d[r].len()
}

/// `start` is where the hero starts according to the characters before
/// `(i, j)`: at the first `H` among them, in the room `id`, or nowhere when
/// there is no `H` among them.
#[verifier::opaque]
pub open spec fn start_before(d: Description, id: usize, start: Option<TileAddress>, i: int, j: int) -> bool {
    match start {
        Some(ta) => {
            &&& ta.room_id == id
            &&& in_text(d, ta.iy as int, ta.ix as int)
            &&& before(ta.iy as int, ta.ix as int, i, j)
            &&& d[ta.iy as int][ta.ix as int] == 'H'
            &&& forall|r: int, c: int|
                in_text(d, r, c) && before(r, c, ta.iy as int, ta.ix as int) ==> #[trigger] d[r][c]
                    != 'H'
        },
        None => forall|r: int, c: int| in_text(d, r, c) && before(r, c, i, j) ==> #[trigger] d[r][c] != 'H',
    }
}

/// The extent of the room fits the machine's index types.
pub open spec fn extent_fits(d: Description) -> bool {
    &&& d.len() <= isize::MAX
    &&& d[0].len() <= isize::MAX
    &&& d.len() * d[0].len() <= isize::MAX
}

/// Row `i` is no longer than the first row and holds supported characters only.
pub open spec fn row_ok(d: Description, i: int) -> bool {
    &&& d[i].len() <= d[0].len()
    &&& forall|j: int| 0 <= j < d[i].len() ==> supported(#[trigger] d[i][j])
}

/// A description that a room can be built from: at least one row, no row
/// longer than the first, and only supported characters.
pub open spec fn description_ok(d: Description) -> bool {
    &&& d.len() > 0
    &&& extent_fits(d)
    &&& forall|i: int| 0 <= i < d.len() ==> #[trigger] row_ok(d, i)
}

/// Why a description cannot be turned into a room.
#[derive(PartialEq, Eq, Structural, Copy, Clone, Debug)]
pub enum RoomError {
    /// There is no row at all.
    NoRows,
    /// The extent does not fit the machine's index types.
    TooLarge,
    /// This row is longer than the first row.
    RowTooLong { row: usize },
    /// This character stands for no tile.
    UnsupportedTile { row: usize, col: usize, c: char },
}

/// `e` names the first thing that is wrong with the description, reading row
/// by row.
pub open spec fn first_problem(d: Description, e: RoomError) -> bool {
    match e {
        RoomError::NoRows => d.len() == 0,
        RoomError::TooLarge => d.len() > 0 && !extent_fits(d),
        RoomError::RowTooLong { row } => {
            &&& d.len() > 0
            &&& extent_fits(d)
            &&& row < d.len()
            &&& forall|i: int| 0 <= i < row ==> #[trigger] row_ok(d, i)
            &&& d[row as int].len() > d[0].len()
        },
        RoomError::UnsupportedTile { row, col, c } => {
            &&& d.len() > 0
            &&& extent_fits(d)
            &&& row < d.len()
            &&& forall|i: int| 0 <= i < row ==> #[trigger] row_ok(d, i)
            &&& d[row as int].len() <= d[0].len()
            &&& col < d[row as int].len()
            &&& d[row as int][col as int] == c
            &&& !supported(c)
            &&& forall|j: int| 0 <= j < col ==> supported(#[trigger] d[row as int][j])
        },
    }
}

/// `room` and `start` are what the description `d` describes, with the sky
/// drawn from a generator in state `q0`.
pub open spec fn describes(d: Description, id: usize, name: Seq<char>, q0: u32, room: RoomView, start: Option<TileAddress>) -> bool {
    &&& room.wf()
    &&& room.id == id
    &&& room.name == name
    &&& room.rows == d.len()
    &&& room.cols == d[0].len()
    &&& room.map.out == Tile::Empty
    &&& forall|i: int, j: int|
        room.map.in_bounds(i, j) ==> #[trigger] room.map.at(i, j) == described_tile(d, q0, i, j)
    &&& indexes(room.doors, room.map)
    &&& door_ids_distinct(room.map) ==> room.index_complete()
    &&& start_before(d, id, start, d.len() as int, 0)
}

/// The grid that a description describes.
pub open spec fn grid_of(d: Description, q0: u32) -> GridView<Tile> {
    GridView {
        rows: d.len() as int,
        cols: d[0].len() as int,
        cells: Seq::new(
            d.len(),
            |i: int| Seq::new(d[0].len(), |j: int| described_tile(d, q0, i, j)),
        ),
        out: Tile::Empty,
    }
}

/// The door index that a scan of the grid derives.
pub open spec fn index_of(map: GridView<Tile>) -> DoorIndex {
    choose|m: DoorIndex| indexes(m, map)
}

/// The room that a description describes.
pub open spec fn room_of(d: Description, id: usize, name: Seq<char>, q0: u32) -> RoomView {
    RoomView {
        id,
        rows: d.len() as usize,
        cols: d[0].len() as usize,
        map: grid_of(d, q0),
        doors: index_of(grid_of(d, q0)),
        name,
    }
}

/// Where a description puts the hero: on its first `H`, if it has one.
pub open spec fn start_of(d: Description, id: usize) -> Option<TileAddress> {
    if exists|ta: TileAddress| start_before(d, id, Some(ta), d.len() as int, 0) {
        Some(choose|ta: TileAddress| start_before(d, id, Some(ta), d.len() as int, 0))
    } else {
        None
    }
}

/// A description describes one room and one starting point.
pub proof fn lemma_describes_one(d: Description, id: usize, name: Seq<char>, q0: u32, room: RoomView, start: Option<
    TileAddress,
>)
    requires
        d.len() > 0,
        describes(d, id, name, q0, room, start),
    ensures
        room == room_of(d, id, name, q0),
        start == start_of(d, id),
{
    let g = grid_of(d, q0);
    assert(g.wf());
    assert forall|i: int, j: int| room.map.in_bounds(i, j) implies room.map.at(i, j) == g.at(i, j) by {}
    room.map.lemma_ext_equal(g);
    crate::room::lemma_index_unique(room.doors, index_of(g), g);
    reveal(start_before);
    match start {
        Some(s) => {
            let c = choose|ta: TileAddress| start_before(d, id, Some(ta), d.len() as int, 0);
            assert(start_before(d, id, Some(c), d.len() as int, 0));
            if before(c.iy as int, c.ix as int, s.iy as int, s.ix as int) {
                assert(d[c.iy as int][c.ix as int] != 'H');
            }
            if before(s.iy as int, s.ix as int, c.iy as int, c.ix as int) {
                assert(d[s.iy as int][s.ix as int] != 'H');
            }
        },
        None => {
            if exists|ta: TileAddress| start_before(d, id, Some(ta), d.len() as int, 0) {
                let c = choose|ta: TileAddress| start_before(d, id, Some(ta), d.len() as int, 0);
                assert(d[c.iy as int][c.ix as int] != 'H');
            }
        },
    }
}

/// A description can have but one first problem.
pub proof fn lemma_first_problem_unique(d: Description, e1: RoomError, e2: RoomError)
    requires
        first_problem(d, e1),
        first_problem(d, e2),
    ensures
        e1 == e2,
{
    let row_of = |e: RoomError|
        match e {
            RoomError::RowTooLong { row } => row as int,
            RoomError::UnsupportedTile { row, .. } => row as int,
            _ => -1,
        };
    if row_of(e1) >= 0 && row_of(e2) >= 0 {
        if row_of(e1) < row_of(e2) {
            assert(row_ok(d, row_of(e1)));
        }
        if row_of(e2) < row_of(e1) {
            assert(row_ok(d, row_of(e2)));
        }
    }
}

/// A description with a first problem is not one a room can be built from.
pub proof fn lemma_problem_not_ok(d: Description, e: RoomError)
    requires
        first_problem(d, e),
    ensures
        !description_ok(d),
{
    match e {
        RoomError::RowTooLong { row } => {
            assert(!row_ok(d, row as int));
        },
        RoomError::UnsupportedTile { row, col, c } => {
            assert(!row_ok(d, row as int));
        },
        _ => {},
    }
}

/// The tile that a character other than `^` stands for.
pub fn tile_of_char(c: char) -> (r: Option<Tile>)
    ensures
        r == plain_tile(c),
{
    match c {
        ' ' => Some(Tile::Empty),
        'H' => Some(Tile::Empty),
        '#' => Some(Tile::Brick),
        'R' => Some(Tile::Rainbow),
        '~' => Some(Tile::Water(Periodic::new(8, 8))),
        '@' => Some(Tile::Vortex),
        '.' => Some(Tile::Grass),
        '%' => Some(Tile::Dirt),
        '*' => Some(Tile::PyramidStone),
        'W' => Some(Tile::Window),
        'F' => Some(Tile::Fire(Periodic::new(3, 2))),
        'q' => Some(Tile::MetalRamp(Corner::NW)),
        'w' => Some(Tile::MetalRamp(Corner::NE)),
        'a' => Some(Tile::MetalRamp(Corner::SW)),
        's' => Some(Tile::MetalRamp(Corner::SE)),
        'm' => Some(Tile::Metal),
        'A' => Some(Tile::Alien),
        'x' => Some(Tile::MetalFoot),
        '^' => None,
        _ => match digit_of(c) {
            Some(id) => Some(Tile::Door(Door { id, target: None, key: None, locked: false })),
            None => match Object::from_char(c) {
                Ok(o) => Some(Tile::Object(o)),
                Err(_) => None,
            },
        },
    }
}

/// One more character read adds one to the count when it is a piece of sky,
/// and a row read to its end adds its count to that of the rows before it.
proof fn lemma_sky_step(d: Description, i: int, j: int)
    requires
        0 <= i < d.len(),
        0 <= j <= d[i].len(),
    ensures
        j < d[i].len() ==> sky_before(d, i, j + 1) == sky_before(d, i, j) + if d[i][j] == '^' {
            1nat
        } else {
            0nat
        },
        j == d[i].len() ==> sky_before(d, i, j) == sky_rows(d, i + 1),
        sky_before(d, i, 0) == sky_rows(d, i),
{
    let s = d[i];
    if j < s.len() {
        assert(s.take(j + 1).drop_last() =~= s.take(j));
        assert(count_sky(s.take(0)) == 0);
    } else {
        assert(s.take(s.len() as int) =~= s);
        assert(count_sky(s.take(0)) == 0);
    }
}

/// Two steps of the generator, spelled out.
proof fn lemma_two_states(q0: u32, k: nat)
    ensures
        nth_state(q0, 2 * k + 1) == next_state(nth_state(q0, 2 * k)),
        nth_state(q0, 2 * (k + 1)) == next_state(next_state(nth_state(q0, 2 * k))),
{
    assert(nth_state(q0, 2 * k + 2) == next_state(nth_state(q0, (2 * k + 1) as nat)));
}

/// What the description puts at a cell that holds a character, and at a cell
/// past the end of its row.
proof fn lemma_described_tile(d: Description, q0: u32, i: int, j: int)
    ensures
        0 <= j < d[i].len() && d[i][j] == '^' ==> described_tile(d, q0, i, j) == sky_tile(
            q0,
            sky_before(d, i, j),
        ),
        0 <= j < d[i].len() && d[i][j] != '^' ==> described_tile(d, q0, i, j) == plain_tile(
            d[i][j],
        )->0,
        j >= d[i].len() ==> described_tile(d, q0, i, j) == Tile::Empty,
{
    reveal(described_tile);
}

/// Reading one more character moves the start on: the first `H` stays, and an
/// `H` met while there is none yet becomes the start.
proof fn lemma_start_step(d: Description, id: usize, start: Option<TileAddress>, i: int, j: int)
    requires
        0 <= i < d.len(),
        0 <= j < d[i].len(),
        i <= usize::MAX,
        j <= usize::MAX,
        start_before(d, id, start, i, j),
    ensures
        start_before(
            d,
            id,
            if d[i][j] == 'H' && start is None {
                Some(TileAddress { room_id: id, iy: i as usize, ix: j as usize })
            } else {
                start
            },
            i,
            j + 1,
        ),
{
    reveal(start_before);
    let after = if d[i][j] == 'H' && start is None {
        Some(TileAddress { room_id: id, iy: i as usize, ix: j as usize })
    } else {
        start
    };
    if after is None {
        assert forall|r: int, c: int| in_text(d, r, c) && before(r, c, i, j + 1) implies #[trigger] d[r][c]
            != 'H' by {
            if !before(r, c, i, j) {
                assert(r == i && c == j);
            }
        }
    }
}

/// The characters before the end of row `i` are those before the start of
/// row `i + 1`, and no character comes before the start of the first row.
proof fn lemma_start_row(d: Description, id: usize, start: Option<TileAddress>, i: int)
    requires
        0 <= i < d.len(),
        start_before(d, id, start, i, d[i].len() as int),
    ensures
        start_before(d, id, start, i + 1, 0),
{
    reveal(start_before);
}

/// Before anything is read the hero starts nowhere.
proof fn lemma_start_none(d: Description, id: usize)
    ensures
        start_before(d, id, None, 0, 0),
{
    reveal(start_before);
}

impl Room {
    /// Builds a room from its description. The first `H`, reading row by row,
    /// is where the hero starts. Each piece of sky takes its look from `rng`.
    pub fn new(id: usize, name: &str, a: &[&str], rng: &mut MiniRNG) -> (r: (Self, Option<TileAddress>))
        requires
            description_ok(described(a@)),
        ensures
            r.0.wf(),
            describes(described(a@), id, name@, old(rng)@, r.0@, r.1),
            r.0@ == room_of(described(a@), id, name@, old(rng)@),
            r.1 == start_of(described(a@), id),
            final(rng)@ == nth_state(old(rng)@, 2 * sky_rows(described(a@), a@.len() as int)),
    {
        let ghost d = described(a@);
        let ghost q0 = rng@;
        let rows: usize = a.len();
        assert(row_ok(d, 0));
        let cols: usize = a[0].unicode_len();
        let mut map: A2<Tile> = A2::new((rows as isize, cols as isize), Tile::Empty);
        let mut start: Option<TileAddress> = None;
        proof {
            map.lemma_wf_view();
            lemma_start_none(d, id);
        }
        let mut i: usize = 0;
        while i < rows
            invariant
                i <= rows,
                rows == a@.len(),
                rows == d.len(),
                d == described(a@),
                description_ok(d),
                cols == d[0].len(),
                map.wf(),
                map@.wf(),
                map@.rows == rows,
                map@.cols == cols,
                map@.out == Tile::Empty,
                forall|r: int, c: int|
                    map@.in_bounds(r, c) ==> #[trigger] map@.at(r, c) == if r < i {
                        described_tile(d, q0, r, c)
                    } else {
                        Tile::Empty
                    },
                rng@ == nth_state(q0, 2 * sky_rows(d, i as int)),
                start_before(d, id, start, i as int, 0),
            decreases rows - i,
        {
            assert(row_ok(d, i as int));
            assert(d[i as int] == a@[i as int]@);
            let ghost row = d[i as int];
            let line: &str = a[i];
            let mut j: usize = 0;
            proof {
                lemma_sky_step(d, i as int, 0);
            }
            for c in it: line.chars()
                invariant
                    it.seq() == row,
                    row == d[i as int],
                    j == it.index(),
                    i < rows,
                    rows == d.len(),
                    row.len() <= cols,
                    forall|k: int| 0 <= k < row.len() ==> supported(#[trigger] row[k]),
                    map.wf(),
                    map@.wf(),
                    map@.rows == rows,
                    map@.cols == cols,
                    map@.out == Tile::Empty,
                    forall|r: int, c: int|
                        map@.in_bounds(r, c) ==> #[trigger] map@.at(r, c) == if before(
                            r,
                            c,
                            i as int,
                            j as int,
                        ) {
                            described_tile(d, q0, r, c)
                        } else {
                            Tile::Empty
                        },
                    rng@ == nth_state(q0, 2 * sky_before(d, i as int, j as int)),
                    start_before(d, id, start, i as int, j as int),
            {
                proof {
                    lemma_sky_step(d, i as int, j as int);
                    lemma_two_states(q0, sky_before(d, i as int, j as int));
                    lemma_described_tile(d, q0, i as int, j as int);
                    lemma_start_step(d, id, start, i as int, j as int);
                    assert(supported(row[j as int]));
                }
                let t: Tile = if c == '^' {
                    Tile::Sky(Random::new(rng.sample_u32(20)))
                } else {
                    match tile_of_char(c) {
                        Some(t) => t,
                        None => vstd::pervasive::unreached(),
                    }
                };
                assert(t == described_tile(d, q0, i as int, j as int));
                if c == 'H' && start.is_none() {
                    start = Some(TileAddress { room_id: id, iy: i, ix: j });
                }
                let ghost mid = map@;
                map.set(i, j, t);
                proof {
                    mid.lemma_set_at(i as int, j as int, t);
                }
                j = j + 1;
            }
            proof {
                lemma_sky_step(d, i as int, j as int);
                lemma_start_row(d, id, start, i as int);
                assert forall|r: int, c: int| map@.in_bounds(r, c) implies #[trigger] map@.at(r, c)
                    == if r < i + 1 {
                    described_tile(d, q0, r, c)
                } else {
                    Tile::Empty
                } by {
                    if r == i && c >= j {
                        lemma_described_tile(d, q0, r, c);
                    }
                }
            }
            i = i + 1;
        }
        let mut room = Room { id, rows, cols, map, doors: BTreeMap::new(), name: String::from_str(name) };
        room.reindex_doors();
        proof {
            lemma_describes_one(d, id, name@, q0, room@, start);
        }
        (room, start)
    }

    /// Builds a room from its description if the description is sound, and
    /// says what is wrong with it if not. `rng` moves only on success.
    pub fn try_new(id: usize, name: &str, a: &[&str], rng: &mut MiniRNG) -> (r: Result<
        (Self, Option<TileAddress>),
        RoomError,
    >)
        ensures
            r is Ok <==> description_ok(described(a@)),
            r matches Ok(p) ==> p.0.wf() && describes(described(a@), id, name@, old(rng)@, p.0@, p.1)
                && p.0@ == room_of(described(a@), id, name@, old(rng)@) && p.1 == start_of(
                described(a@),
                id,
            ) && final(rng)@
                == nth_state(old(rng)@, 2 * sky_rows(described(a@), a@.len() as int)),
            r matches Err(e) ==> first_problem(described(a@), e) && final(rng)@ == old(rng)@,
    {
        let ghost d = described(a@);
        let rows: usize = a.len();
        if rows == 0 {
            return Err(RoomError::NoRows);
        }
        let cols: usize = a[0].unicode_len();
        let limit: usize = isize::MAX as usize;
        let fits: bool = rows <= limit && cols <= limit && match rows.checked_mul(cols) {
            Some(m) => m <= limit,
            None => false,
        };
        if !fits {
            return Err(RoomError::TooLarge);
        }
        let mut i: usize = 0;
        while i < rows
            invariant
                i <= rows,
                rows == a@.len(),
                rows == d.len(),
                rows > 0,
                d == described(a@),
                cols == d[0].len(),
                extent_fits(d),
                forall|k: int| 0 <= k < i ==> #[trigger] row_ok(d, k),
                rng@ == old(rng)@,
            decreases rows - i,
        {
            assert(d[i as int] == a@[i as int]@);
            let ghost row = d[i as int];
            let line: &str = a[i];
            if line.unicode_len() > cols {
                proof {
                    lemma_problem_not_ok(d, RoomError::RowTooLong { row: i });
                }
                return Err(RoomError::RowTooLong { row: i });
            }
            let mut j: usize = 0;
            for c in it: line.chars()
                invariant
                    it.seq() == row,
                    row == d[i as int],
                    j == it.index(),
                    i < rows,
                    rows == d.len(),
                    rows > 0,
                    d == described(a@),
                    cols == d[0].len(),
                    row.len() <= cols,
                    extent_fits(d),
                    forall|k: int| 0 <= k < i ==> #[trigger] row_ok(d, k),
                    forall|k: int| 0 <= k < j ==> supported(#[trigger] row[k]),
                    rng@ == old(rng)@,
            {
                if c != '^' && tile_of_char(c).is_none() {
                    proof {
                        assert(row[j as int] == c);
                        assert(first_problem(d, RoomError::UnsupportedTile { row: i, col: j, c }));
                        lemma_problem_not_ok(d, RoomError::UnsupportedTile { row: i, col: j, c });
                    }
                    return Err(RoomError::UnsupportedTile { row: i, col: j, c });
                }
                j = j + 1;
            }
            assert(row_ok(d, i as int));
            i = i + 1;
        }
        Ok(Room::new(id, name, a, rng))
    }
}

} // verus!
