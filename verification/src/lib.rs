//! Hexagonal 18xx-style tile and map model.
//!
//! The crate models the geometry of hexagonal game tiles (positions inside a
//! hex are three-axis cube coordinates whose components sum to zero), resolves
//! board locations given as labels such as `B4`, and reconstructs the current
//! state of a board by replaying an append-only log of game actions against a
//! static map and tile manifest.

use vstd::prelude::*;

pub mod board;
pub mod codec;
pub mod colors;
pub mod coord;
pub mod defs;
pub mod engine;
pub mod maps;
pub mod table;
pub mod tiles;

verus! {

/// General command line options shared by every mode.
pub struct Options {
    pub verbose: bool,
    pub debug_coordinates: bool,
}

impl Options {
    pub fn new() -> (r: Options)
        ensures
            !r.verbose,
            !r.debug_coordinates,
    {
        Options { verbose: false, debug_coordinates: false }
    }
}

/// Options of the asset-generation mode: which game to process.
pub struct AssetOptions {
    pub name: String,
}

impl AssetOptions {
    pub fn new() -> (r: AssetOptions)
        ensures
            r.name@ == Seq::<char>::empty(),
    {
        AssetOptions { name: String::new() }
    }
}

/// Options of the new-game mode: the ruleset, the session name, and whether
/// an existing session file may be overwritten.
pub struct NewGameOptions {
    pub game: String,
    pub name: String,
    pub overwrite: bool,
}

impl NewGameOptions {
    pub fn new() -> (r: NewGameOptions)
        ensures
            r.game@ == Seq::<char>::empty(),
            r.name@ == Seq::<char>::empty(),
            !r.overwrite,
    {
        NewGameOptions { game: String::new(), name: String::new(), overwrite: false }
    }
}

/// Options of the game-state mode: which session to render.
pub struct StateOptions {
    pub name: String,
}

impl StateOptions {
    pub fn new() -> (r: StateOptions)
        ensures
            r.name@ == Seq::<char>::empty(),
    {
        StateOptions { name: String::new() }
    }
}

} // verus!
