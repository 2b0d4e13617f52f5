//! Tile type codes and the static solidity lookup.
//!
//! A tile is a small unsigned integer code. The solid subset (the tiles that
//! participate in collision) is fixed: grass, dirt, stone and planks. All
//! other codes, notably air, logs and leaves, are passable.

use vstd::prelude::*;

verus! {

pub const AIR: u16 = 0;

pub const GRASS: u16 = 1;

pub const DIRT: u16 = 2;

pub const STONE: u16 = 3;

pub const PLANKS: u16 = 4;

pub const LOG: u16 = 5;

pub const LEAVES: u16 = 6;

/// Whether a tile code blocks actor movement.
pub open spec fn spec_is_solid(t: u16) -> bool {
    t == GRASS || t == DIRT || t == STONE || t == PLANKS
}

/// Solidity test: exactly the set {grass, dirt, stone, planks}.
pub fn is_solid(t: u16) -> (r: bool)
    ensures
        r == spec_is_solid(t),
{
    t == GRASS || t == DIRT || t == STONE || t == PLANKS
}

} // verus!
