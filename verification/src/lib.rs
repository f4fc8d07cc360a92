//! A falling-block puzzle game engine: the playing field, the seven
//! tetrominoes with their rotation system, a seven-bag piece generator and
//! the per-frame game loop, with their contracts proved by Verus.

pub mod block;
pub mod shapes;
pub mod field;
pub mod mino;
pub mod generator;
pub mod manager;
pub mod laws;
