//! The voxel core of a block game: a sparse world of fixed-size chunks of
//! blocks, the split of block coordinates into chunk and local coordinates,
//! meshing of chunks with face culling across chunk borders, the broad phase
//! of ray casts, block edits, and the rules by which chunks are generated,
//! flagged for rebuilding and evicted around players.
pub mod coord;
pub mod dir;
pub mod neighbours;
pub mod blocks;
pub mod chunk;
pub mod vertex;
pub mod mesh;
pub mod chunk_map;
pub mod world;
pub mod meshing;
pub mod lifecycle;
pub mod edits;
pub mod raycast;
