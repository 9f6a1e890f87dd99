//! The scene-acceleration and framebuffer core of an offline path tracer.
//!
//! Scalars (coordinates and ray parameters) are held as `i64` keys that order
//! exactly as the renderer's real values do. Every decision made here (interval
//! union, slab clipping, the order in which a bounding volume hierarchy splits
//! its objects, which hit is nearest) reads only that order, so it is exact and
//! is proved. The arithmetic on real values (where a ray meets a sphere, where
//! it crosses a box's planes) is the caller's, handed in as a query routine.
//!
//! - `interval`, `aabb`: ranges of keys, boxes, union and the slab test.
//! - `bvh`: building a bounding volume hierarchy and finding the nearest hit
//!   through it; `hit_list`: the same over a flat list; `nearest`: the two
//!   agree.
//! - `integrator`: when a light path ends.
//! - `canvas`, `texture`, `perlin`: the framebuffer, texel lookup, checker
//!   cells and Perlin permutation tables.
pub mod random;
pub mod interval;
pub mod aabb;
pub mod query;
pub mod bvh;
pub mod hit_list;
pub mod nearest;
pub mod integrator;
pub mod image_buffer;
pub mod canvas;
pub mod texture;
pub mod perlin;
pub mod coordinate;
