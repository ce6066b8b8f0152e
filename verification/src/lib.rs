//! A small game engine core: an entity-component store, the bookkeeping of a
//! batched quad renderer, glyph synthesis for a tiny character set, per-frame
//! input state, and the decisions of the frame loop.
//!
//! Every function carries a contract that Verus proves, but for the two
//! casts of the vertex and index data to bytes, which are believed. Floating
//! point, the window and the GPU are the caller's part: lengths are whole
//! numbers of units, vertices are bit patterns, and time is a clock reading.

pub mod assets;
pub mod color;
pub mod ecs;
pub mod input;
pub mod render;
pub mod scene;
pub mod shell;
pub mod time;
