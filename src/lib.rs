//! Decoding of GoldSrc level containers (BSP version 30) and WAD3 texture
//! archives, and reconstruction of a per-texture batched triangle mesh.
pub mod bytes;
pub mod error;
pub mod record;
pub mod lump;
pub mod records;
pub mod miptex;
pub mod wad;
pub mod map;
pub mod geometry;
pub mod batch;
pub mod textures;
pub mod cubemap;
pub mod entities;
pub mod maxrects;
