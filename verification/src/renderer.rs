//! The integer side of rendering: which atlas tile each face of a block
//! samples, and which block faces a chunk section shows.

pub mod block_textures;

pub mod mesher;
