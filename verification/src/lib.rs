//! Level-building logic of an underwater platformer: linking hand-made
//! level segments into one tile grid, carving corridors between them,
//! trimming padding, reading level text, and naming the game's sounds.

pub mod actions;
pub mod audio;
pub mod collision;
pub mod environment;
pub mod level;
pub mod segment_linker;
pub mod text;
