//! Mesh clean-up filters of a solid-modeling kernel: degenerate-face removal,
//! attribute compaction and welding by grid cell, and a store that attaches
//! geometry to topological elements.
pub mod compact;
pub mod degenerate;
pub mod director;
pub mod division;
pub mod mesh;
pub mod weld;
