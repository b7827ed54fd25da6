//! The simulation core of a small tile-based maze game: the tile grid, rooms
//! and their doors, the world that links rooms, the hero's movement state
//! machine and the editor's undo history.
//!
//! Every type comes with a view, its mathematical content, and every function
//! says over views what it does. The modules, leaves first:
//!
//! - `a2`: the grid, a dense two-dimensional array with a sentinel;
//! - `object`, `tiles`: what a cell can hold;
//! - `mini_rng`: the generator behind the looks of the sky;
//! - `keys`, `scan`, `text`: walks over id-keyed maps, cutting text, numbers
//!   as text;
//! - `room`: a grid of tiles with the index of its doors;
//! - `legend`: rooms drawn as text;
//! - `world`: rooms by id and the connections between their doors;
//! - `legacy`: the line-oriented text format for worlds;
//! - `facing`, `position`, `sounds`, `hero`: the hero and how it moves;
//! - `undo`: the bounded edit history;
//! - `aspect`: how tiles look;
//! - `editor`: the level editor's session.

pub mod a2;
pub mod aspect;
pub mod editor;
pub mod facing;
pub mod hero;
pub mod keys;
pub mod legacy;
pub mod legend;
pub mod mini_rng;
pub mod object;
pub mod position;
pub mod room;
pub mod scan;
pub mod sounds;
pub mod text;
pub mod tiles;
pub mod undo;
pub mod world;
