//! How tiles look: a cell of the tile atlas, or a plain colour.
//!
//! The atlas is a picture cut into cells of sixteen by sixteen pixels. A
//! front-end blits the cell, or fills the tile with the colour.

use vstd::prelude::*;
use crate::facing::Facing;
use crate::object::Object;
use crate::position::Position;
use crate::tiles::{Corner, Tile};

verus! {

/// The width and the height of an atlas cell, in pixels.
pub const CELL: u32 = 16;

/// How many colours the rainbow cycles through.
pub const RAINBOW_LEN: usize = 6;

/// A colour, as red, green and blue.
#[derive(PartialEq, Eq, Structural, Copy, Clone, Debug)]
pub struct Rgb {
    pub r: u8,
    pub g: u8,
    pub b: u8,
}

/// The look of a tile.
#[derive(PartialEq, Eq, Structural, Copy, Clone, Debug)]
pub enum TileAspect {
    /// The pixels from `(x0, y0)` up to, not including, `(x1, y1)` of the
    /// atlas.
    FromImage { x0: u32, y0: u32, x1: u32, y1: u32 },
    /// One colour all over.
    Solid(Rgb),
}

/// The atlas cell in row `u` and column `v`.
pub open spec fn spec_cell(u: u32, v: u32) -> TileAspect {
    TileAspect::FromImage {
        x0: (v * 16) as u32,
        y0: (u * 16) as u32,
        x1: ((v + 1) * 16) as u32,
        y1: ((u + 1) * 16) as u32,
    }
}

/// The colours of the rainbow, in order.
pub open spec fn spec_rainbow(i: usize) -> Rgb {
    if i == 0 {
        Rgb { r: 255, g: 0, b: 0 }
    } else if i == 1 {
        Rgb { r: 255, g: 255, b: 0 }
    } else if i == 2 {
        Rgb { r: 0, g: 255, b: 0 }
    } else if i == 3 {
        Rgb { r: 0, g: 255, b: 255 }
    } else if i == 4 {
        Rgb { r: 0, g: 0, b: 255 }
    } else {
        Rgb { r: 255, g: 0, b: 255 }
    }
}

/// The atlas row and column of an object.
pub open spec fn spec_object_cell(o: Object) -> (u32, u32) {
    match o {
        Object::Coin => (0, 1),
        Object::IceCream => (0, 3),
        Object::Key => (0, 4),
        Object::ToyCar => (0, 5),
        Object::SquaresAndTriangles => (0, 6),
        Object::Tomato => (1, 5),
        Object::Eggplant => (1, 6),
        Object::Banana => (1, 7),
        Object::Carrot => (1, 8),
    }
}

/// The atlas row and column of a tile that is drawn from the atlas. Fire and
/// water show the frame their counter is at, sky shows the look it was
/// given, and a door shows whether it leads anywhere and how it is locked.
pub open spec fn spec_tile_cell(tl: Tile) -> (u32, u32) {
    match tl {
        Tile::Fire(p) => ((4 + p.i) as u32, 4),
        Tile::Brick => (0, 0),
        Tile::Metal => (0, 12),
        Tile::Alien => (0, 14),
        Tile::Sky(r) => (r.i % 0x1_0000, 10),
        Tile::MetalRamp(Corner::NW) => (2, 13),
        Tile::MetalRamp(Corner::NE) => (2, 12),
        Tile::MetalRamp(Corner::SW) => (1, 12),
        Tile::MetalRamp(Corner::SE) => (1, 13),
        Tile::MetalFoot => (3, 12),
        Tile::Object(o) => spec_object_cell(o),
        Tile::Door(d) => if d.target is None {
            (2, 3)
        } else if d.key is None {
            (0, 2)
        } else if d.locked {
            (1, 3)
        } else {
            (1, 4)
        },
        Tile::Vortex => (0, 7),
        Tile::Grass => (0, 8),
        Tile::Dirt => (2, 8),
        Tile::PyramidStone => (3, 8),
        Tile::Window => (0, 11),
        Tile::Water(p) => (p.i as u32, 9),
        Tile::Empty => (0, 0),
        Tile::Rainbow => (0, 0),
    }
}

/// The look of a tile. Empty tiles are black, the rainbow has the colour
/// that the rainbow is at, and everything else comes from the atlas.
pub open spec fn spec_find_tile(tl: Tile, rainbow_index: usize) -> TileAspect {
    match tl {
        Tile::Empty => TileAspect::Solid(Rgb { r: 0, g: 0, b: 0 }),
        Tile::Rainbow => TileAspect::Solid(spec_rainbow(rainbow_index)),
        _ => spec_cell(spec_tile_cell(tl).0, spec_tile_cell(tl).1),
    }
}

/// The `i`-th colour of the rainbow.
pub fn rainbow(i: usize) -> (c: Rgb)
    requires
        i < RAINBOW_LEN,
    ensures
        c == spec_rainbow(i),
{
    match i {
        0 => Rgb { r: 255, g: 0, b: 0 },
        1 => Rgb { r: 255, g: 255, b: 0 },
        2 => Rgb { r: 0, g: 255, b: 0 },
        3 => Rgb { r: 0, g: 255, b: 255 },
        4 => Rgb { r: 0, g: 0, b: 255 },
        _ => Rgb { r: 255, g: 0, b: 255 },
    }
}

/// The atlas cell in row `u` and column `v`.
fn cell(u: u32, v: u32) -> (a: TileAspect)
    requires
        u < 0x1_0004,
        v < 16,
    ensures
        a == spec_cell(u, v),
{
    TileAspect::FromImage { x0: v * CELL, y0: u * CELL, x1: (v + 1) * CELL, y1: (u + 1) * CELL }
}

/// The look of a tile while the rainbow is at its `rainbow_index`-th colour.
pub fn find_tile(tl: Tile, rainbow_index: usize) -> (a: TileAspect)
    requires
        rainbow_index < RAINBOW_LEN,
    ensures
        a == spec_find_tile(tl, rainbow_index),
{
    match tl {
        Tile::Fire(p) => cell(4 + p.i as u32, 4),
        Tile::Brick => cell(0, 0),
        Tile::Metal => cell(0, 12),
        Tile::Alien => cell(0, 14),
        Tile::Sky(r) => cell(r.i % 0x1_0000, 10),
        Tile::MetalRamp(Corner::NW) => cell(2, 13),
        Tile::MetalRamp(Corner::NE) => cell(2, 12),
        Tile::MetalRamp(Corner::SW) => cell(1, 12),
        Tile::MetalRamp(Corner::SE) => cell(1, 13),
        Tile::MetalFoot => cell(3, 12),
        Tile::Object(o) => match o {
            Object::Coin => cell(0, 1),
            Object::IceCream => cell(0, 3),
            Object::Key => cell(0, 4),
            Object::ToyCar => cell(0, 5),
            Object::SquaresAndTriangles => cell(0, 6),
            Object::Tomato => cell(1, 5),
            Object::Eggplant => cell(1, 6),
            Object::Banana => cell(1, 7),
            Object::Carrot => cell(1, 8),
        },
        Tile::Door(d) => {
            if d.target.is_none() {
                cell(2, 3)
            } else if d.key.is_none() {
                cell(0, 2)
            } else if d.locked {
                cell(1, 3)
            } else {
                cell(1, 4)
            }
        },
        Tile::Vortex => cell(0, 7),
        Tile::Grass => cell(0, 8),
        Tile::Dirt => cell(2, 8),
        Tile::PyramidStone => cell(3, 8),
        Tile::Window => cell(0, 11),
        Tile::Water(p) => cell(p.i as u32, 9),
        Tile::Empty => TileAspect::Solid(Rgb { r: 0, g: 0, b: 0 }),
        Tile::Rainbow => TileAspect::Solid(rainbow(rainbow_index)),
    }
}

/// The colour after the `i`-th in the rainbow's cycle.
pub fn next_rainbow(i: usize) -> (j: usize)
    requires
        i < RAINBOW_LEN,
    ensures
        j == (i + 1) % (RAINBOW_LEN as int),
        j < RAINBOW_LEN,
{
    if i + 1 == RAINBOW_LEN {
        0
    } else {
        i + 1
    }
}

/// The colour of a streak of confetti, from a draw of the generator: the
/// three low bytes of the draw, lowest first, are red, green and blue.
pub fn confetti_color(c: u32) -> (rgb: Rgb)
    ensures
        rgb.r == c & 255,
        rgb.g == (c >> 8) & 255,
        rgb.b == (c >> 16) & 255,
        rgb.r == c % 256,
        rgb.g == (c / 256) % 256,
        rgb.b == (c / 65536) % 256,
{
    let r: u32 = c & 255;
    let g: u32 = (c >> 8) & 255;
    let b: u32 = (c >> 16) & 255;
    assert(r < 256 && r == c % 256) by (bit_vector)
        requires
            r == c & 255,
    ;
    assert(g < 256 && g == (c / 256) % 256) by (bit_vector)
        requires
            g == (c >> 8) & 255,
    ;
    assert(b < 256 && b == (c / 65536) % 256) by (bit_vector)
        requires
            b == (c >> 16) & 255,
    ;
    Rgb { r: r as u8, g: g as u8, b: b as u8 }
}

/// The row of the atlas that shows the hero looking this way.
pub open spec fn spec_facing_row(f: Facing) -> usize {
    match f {
        Facing::Right => 1,
        Facing::Left => 2,
        Facing::Up => 3,
        Facing::Down => 4,
    }
}

/// How far along one axis, in pixels, a hero is that walks from cell `from`
/// to cell `to` and is `step` ticks into `total`, with cells `b` pixels
/// wide: the way made so far is rounded down to whole pixels.
pub open spec fn spec_slide(b: usize, from: usize, to: usize, step: usize, total: usize) -> int {
    if to >= from {
        b * from + (b * step * (to - from)) / (total as int)
    } else {
        b * from - (b * step * (from - to)) / (total as int)
    }
}

/// The pixels of `spec_slide` can be computed in machine words.
pub open spec fn slide_fits(b: usize, from: usize, to: usize, step: usize, total: usize) -> bool {
    &&& total > 0
    &&& b * from <= usize::MAX
    &&& b * step <= usize::MAX
    &&& b * step * (if to >= from {
        to - from
    } else {
        from - to
    }) <= usize::MAX
    &&& 0 <= spec_slide(b, from, to, step, total) <= isize::MAX
}

/// The pixels of the hero's sprite can be computed in machine words.
pub open spec fn sprite_fits(p: Position, bw: usize, bh: usize) -> bool {
    match p {
        Position::Block(hi, hj, _) => bw * hj <= isize::MAX && bh * hi <= isize::MAX,
        Position::Walking { from, to, step, total } => slide_fits(bw, from.1, to.1, step, total)
            && slide_fits(bh, from.0, to.0, step, total),
    }
}

/// The hero's sprite: the row and the column of its atlas cell, and where
/// to draw it, in pixels right of and below the room's corner. The row is
/// that of the way the hero looks, five further down when it is fat; a
/// standing hero is in column 0, a walking one in columns 1 and 2 in turn.
pub open spec fn spec_hero_sprite(p: Position, fat: bool, bw: usize, bh: usize) -> (
    usize,
    usize,
    isize,
    isize,
) {
    let u = (spec_facing_row(p.spec_facing()) + if fat {
        5int
    } else {
        0int
    }) as usize;
    match p {
        Position::Block(hi, hj, _) => (u, 0, (bw * hj) as isize, (bh * hi) as isize),
        Position::Walking { from, to, step, total } => (
            u,
            (1 + step % 2) as usize,
            spec_slide(bw, from.1, to.1, step, total) as isize,
            spec_slide(bh, from.0, to.0, step, total) as isize,
        ),
    }
}

/// The pixels along one axis, or `None` where they do not fit.
fn slide(b: usize, from: usize, to: usize, step: usize, total: usize) -> (r: Option<isize>)
    ensures
        r == if slide_fits(b, from, to, step, total) {
            Some(spec_slide(b, from, to, step, total) as isize)
        } else {
            None
        },
{
    if total == 0 {
        return None;
    }
    let base: usize = match b.checked_mul(from) {
        Some(x) => x,
        None => {
            return None;
        },
    };
    let paced: usize = match b.checked_mul(step) {
        Some(x) => x,
        None => {
            return None;
        },
    };
    let cells: usize = if to >= from {
        to - from
    } else {
        from - to
    };
    let way: usize = match paced.checked_mul(cells) {
        Some(x) => x,
        None => {
            return None;
        },
    };
    let moved: usize = way / total;
    let x: usize = if to >= from {
        match base.checked_add(moved) {
            Some(x) => x,
            None => {
                return None;
            },
        }
    } else if base >= moved {
        base - moved
    } else {
        return None;
    };
    if x <= isize::MAX as usize {
        Some(x as isize)
    } else {
        None
    }
}

/// The hero's sprite and where to draw it, or `None` where the pixels do
/// not fit the machine's words.
pub fn hero_sprite(p: Position, fat: bool, bw: usize, bh: usize) -> (r: Option<(usize, usize, isize, isize)>)
    ensures
        r == if sprite_fits(p, bw, bh) {
            Some(spec_hero_sprite(p, fat, bw, bh))
        } else {
            None
        },
{
    let row: usize = match p.facing() {
        Facing::Right => 1,
        Facing::Left => 2,
        Facing::Up => 3,
        Facing::Down => 4,
    };
    let u: usize = if fat {
        row + 5
    } else {
        row
    };
    match p {
        Position::Block(hi, hj, _) => {
            let limit: usize = isize::MAX as usize;
            match (bw.checked_mul(hj), bh.checked_mul(hi)) {
                (Some(x), Some(y)) => if x <= limit && y <= limit {
                    Some((u, 0, x as isize, y as isize))
                } else {
                    None
                },
                _ => None,
            }
        },
        Position::Walking { from, to, step, total } => {
            match (slide(bw, from.1, to.1, step, total), slide(bh, from.0, to.0, step, total)) {
                (Some(x), Some(y)) => Some((u, 1 + step % 2, x, y)),
                _ => None,
            }
        },
    }
}

} // verus!
