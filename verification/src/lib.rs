//! Index of a compressed container as a navigable tree, the decisions of a
//! read-only filesystem served from that tree, and the plan of an extraction.

pub mod archive;
pub mod ui;
pub mod util;
