//! Streaming of a procedurally generated heightfield world around a moving
//! observer: chunk coordinates and distances, detail levels, the chunk grid,
//! the per-tick streaming state machine with its rate limit and collider
//! lifecycle, and the index layout of chunk meshes.

pub mod coords;
pub mod lod;
pub mod state;
pub mod grid;
pub mod step;
pub mod streamer;
pub mod mesh;
