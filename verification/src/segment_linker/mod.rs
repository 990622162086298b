//! Links hand-crafted segments into one level grid.

pub mod assemble;
pub mod stitch;
pub mod corridors;
pub mod grid;
pub mod layout_alternating;
pub mod layout_grid;
pub mod layout_linear;
pub mod layout_vertical;
pub mod linker;
pub mod placement;
pub mod segment;
pub mod trimming;
pub mod types;
