//! A small roguelike world kernel: a logical tile grid, procedural room
//! generation, spawn-tile selection, and movement validation under
//! wall-collision rules.  Rendering and input belong to the surrounding
//! application, which reads positions and tiles but never writes them.

pub mod grid;
pub mod mapgen;
pub mod movement;
pub mod random;
pub mod spawn;
