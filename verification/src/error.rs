use vstd::prelude::*;

verus! {

/// Errors reported by sheaf construction and by operations on cochains.
#[derive(Debug, Clone, PartialEq, Eq, Structural)]
pub enum SheafError {
    /// A sheaf needs at least one node.
    EmptySheaf,
    /// The node index does not name a node of the sheaf.
    NodeNotFound(usize),
    /// No edge goes from the first node to the second.
    EdgeNotFound(usize, usize),
    /// A vector had `actual` components where `expected` were needed.
    DimensionMismatch { expected: usize, actual: usize },
    /// Every stalk must have a positive dimension.
    InvalidStalkDimension(usize),
    /// A restriction map must have the shape target stalk by source stalk.
    InvalidRestrictionMap { rows: usize, cols: usize, expected_rows: usize, expected_cols: usize },
}

} // verus!
