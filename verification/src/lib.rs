//! Cellular sheaves on graphs for multi-agent coordination.
//!
//! A cellular sheaf assigns a stalk (a vector space of some dimension) to every
//! node of a graph and a restriction map (a matrix) to every directed edge.
//! States of all agents are stacked into one cochain vector; the stalk of a node
//! occupies a contiguous block of it whose start is the node's offset.
//!
//! The library is generic over the scalar type of the matrix entries and of the
//! cochains: everything it verifies is about shapes, indices and the placement
//! of entries, never about arithmetic on the scalars.

mod error;
mod laws;
mod matrix;
mod sheaf;

pub use error::SheafError;
pub use laws::{
    law_coboundary_blocks_tile_rows, law_edge_lookup_by_endpoints,
    law_fitting_maps_match_both_stalks, law_neighbors_one_per_leaving_edge,
    law_stalk_is_run_at_offset, law_added_edge_is_found, law_added_edge_keeps_maps_fit, law_neighbors_are_edge_targets,
    law_stalk_read_after_write, law_stalk_write_keeps_others, law_stalks_disjoint,
    law_stalks_tile_cochain, law_transpose_involutive,
};
pub use matrix::Matrix;
pub use sheaf::{AgentState, CellularSheaf, CoboundaryBlock, CoboundaryLayout, SheafEdge};
