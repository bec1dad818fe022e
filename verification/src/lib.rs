//! Decoder for a self-describing binary world format: a streaming tagged-tree
//! reader, the fixed-layout container files that hold per-unit compressed
//! payloads, bit-packed block/light/biome extraction, and the coordinate
//! model that assembles units with their neighbors.

pub mod container;
pub mod error;
pub mod laws;
pub mod names;
pub mod nbt;
pub mod pack;
pub mod region;
pub mod region2;
pub mod section;
pub mod sizes;
pub mod types;
pub mod world;
