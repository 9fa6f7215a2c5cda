use vstd::prelude::*;

use crate::error::SheafError;
use crate::matrix::Matrix;

verus! {

/// Sum of the first `n` stalk dimensions: the offset at which the stalk of node `n`
/// starts in a stacked cochain.
pub open spec fn dims_prefix(dims: Seq<usize>, n: int) -> int
    decreases n,
{
    if n <= 0 {
        0
    } else {
        dims_prefix(dims, n - 1) + dims[n - 1]
    }
}

/// Prefix sums of stalk dimensions never decrease.
pub proof fn lemma_dims_prefix_monotone(dims: Seq<usize>, a: int, b: int)
    requires
        0 <= a <= b,
    ensures
        dims_prefix(dims, a) <= dims_prefix(dims, b),
    decreases b - a,
{
    if a < b {
        lemma_dims_prefix_monotone(dims, a, b - 1);
    }
}

/// The prefix sums of a constant sequence grow linearly.
pub proof fn lemma_dims_prefix_constant(dims: Seq<usize>, d: usize, n: int)
    requires
        0 <= n <= dims.len(),
        forall|i: int| 0 <= i < dims.len() ==> dims[i] == d,
    ensures
        dims_prefix(dims, n) == n * d,
    decreases n,
{
    if n > 0 {
        lemma_dims_prefix_constant(dims, d, n - 1);
        assert(dims[n - 1] == d);
        assert((n - 1) * d + d == n * d) by (nonlinear_arith);
    } else {
        assert(n * d == 0) by (nonlinear_arith)
            requires
                n == 0,
        ;
    }
}

/// An edge of the sheaf together with its restriction map, a matrix with one row per
/// dimension of the target stalk and one column per dimension of the source stalk.
#[derive(Debug, Clone)]
pub struct SheafEdge<T> {
    pub source: usize,
    pub target: usize,
    pub restriction_map: Matrix<T>,
}

/// The state of one agent: its index and the value of its stalk.
#[derive(Debug, Clone)]
pub struct AgentState<T> {
    pub agent_id: usize,
    pub state: Vec<T>,
}

/// Where the block of one edge sits in the coboundary matrix: rows
/// `row_offset .. row_offset + rows`, source columns `source_offset .. source_offset + cols`,
/// target columns `target_offset .. target_offset + rows`.
#[derive(Debug, Clone, Copy, PartialEq, Eq, Structural)]
pub struct CoboundaryBlock {
    pub row_offset: usize,
    pub rows: usize,
    pub cols: usize,
    pub source_offset: usize,
    pub target_offset: usize,
}

/// The shape of the coboundary matrix and the blocks of its edges, in edge order.
#[derive(Debug, Clone)]
pub struct CoboundaryLayout {
    pub rows: usize,
    pub cols: usize,
    pub blocks: Vec<CoboundaryBlock>,
}

/// A cellular sheaf on a directed graph.
///
/// `stalk_dims[i]` is the dimension of the stalk of node `i`; `total_dim` is their sum,
/// the length of a stacked cochain. Edges are kept in insertion order; where several edges
/// join the same pair of nodes, the most recently added one is the one that lookups find.
#[derive(Debug, Clone)]
pub struct CellularSheaf<T> {
    pub num_nodes: usize,
    pub stalk_dims: Vec<usize>,
    pub edges: Vec<SheafEdge<T>>,
    pub total_dim: usize,
}

impl<T: Copy> CellularSheaf<T> {
    /// `e` goes from `source` to `target`.
    pub open spec fn links(e: SheafEdge<T>, source: usize, target: usize) -> bool {
        e.source == source && e.target == target
    }

    /// Some edge goes from `source` to `target`.
    pub open spec fn spec_has_edge(&self, source: usize, target: usize) -> bool {
        exists|i: int| 0 <= i < self.edges@.len() && Self::links(#[trigger] self.edges@[i], source, target)
    }

    /// Edge `i` is the most recently added edge from `source` to `target`.
    pub open spec fn is_last_edge(&self, i: int, source: usize, target: usize) -> bool {
        &&& 0 <= i < self.edges@.len()
        &&& Self::links(self.edges@[i], source, target)
        &&& forall|j: int| i < j < self.edges@.len() ==> !Self::links(#[trigger] self.edges@[j], source, target)
    }

    /// Offset of the stalk of `node` in a stacked cochain.
    pub open spec fn offset(&self, node: int) -> int {
        dims_prefix(self.stalk_dims@, node)
    }

    /// Dimension of the stalk of `node`.
    pub open spec fn dim(&self, node: int) -> int {
        self.stalk_dims@[node] as int
    }

    /// The restriction map of edge `i` has the shape its endpoints ask for.
    pub open spec fn edge_map_fits(&self, i: int) -> bool {
        let e = self.edges@[i];
        e.restriction_map.rows == self.stalk_dims@[e.target as int]
            && e.restriction_map.cols == self.stalk_dims@[e.source as int]
    }

    /// Every restriction map has the shape its endpoints ask for.
    pub open spec fn maps_fit(&self) -> bool {
        forall|i: int| 0 <= i < self.edges@.len() ==> #[trigger] self.edge_map_fits(i)
    }

    /// Well-formedness: what the constructors establish and every operation keeps.
    pub open spec fn wf(&self) -> bool {
        &&& self.num_nodes == self.stalk_dims@.len()
        &&& self.num_nodes > 0
        &&& forall|i: int| 0 <= i < self.num_nodes ==> #[trigger] self.stalk_dims@[i] > 0
        &&& self.total_dim == dims_prefix(self.stalk_dims@, self.num_nodes as int)
        &&& forall|i: int|
            0 <= i < self.edges@.len() ==> (#[trigger] self.edges@[i]).source < self.num_nodes
                && self.edges@[i].target < self.num_nodes
    }

    /// A sheaf with `num_nodes` nodes whose stalks all have dimension `stalk_dim`, and no edges.
    pub fn new_uniform(num_nodes: usize, stalk_dim: usize) -> (r: Result<Self, SheafError>)
        requires
            num_nodes * stalk_dim <= usize::MAX,
        ensures
            num_nodes == 0 ==> r == Err::<Self, SheafError>(SheafError::EmptySheaf),
            num_nodes > 0 && stalk_dim == 0 ==> r == Err::<Self, SheafError>(
                SheafError::InvalidStalkDimension(0),
            ),
            num_nodes > 0 && stalk_dim > 0 ==> (r matches Ok(s) && {
                &&& s.wf()
                &&& s.maps_fit()
                &&& s.num_nodes == num_nodes
                &&& s.stalk_dims@ == Seq::new(num_nodes as nat, |i: int| stalk_dim)
                &&& s.total_dim == stalk_dim * num_nodes
                &&& s.edges@.len() == 0
            }),
    {
        if num_nodes == 0 {
            return Err(SheafError::EmptySheaf);
        }
        if stalk_dim == 0 {
            return Err(SheafError::InvalidStalkDimension(0));
        }
        let mut stalk_dims: Vec<usize> = Vec::new();
        let mut k: usize = 0;
        while k < num_nodes
            invariant
                k <= num_nodes,
                stalk_dims@ == Seq::new(k as nat, |i: int| stalk_dim),
            decreases num_nodes - k,
        {
            stalk_dims.push(stalk_dim);
            k = k + 1;
        }
        proof {
            lemma_dims_prefix_constant(stalk_dims@, stalk_dim, num_nodes as int);
            assert(num_nodes * stalk_dim == stalk_dim * num_nodes) by (nonlinear_arith);
        }
        let total_dim: usize = stalk_dim * num_nodes;
        let s = CellularSheaf {
            num_nodes,
            stalk_dims,
            edges: Vec::new(),
            total_dim,
        };
        Ok(s)
    }

    /// A sheaf whose node `i` has a stalk of dimension `stalk_dims[i]`, and no edges.
    pub fn new(stalk_dims: Vec<usize>) -> (r: Result<Self, SheafError>)
        requires
            dims_prefix(stalk_dims@, stalk_dims@.len() as int) <= usize::MAX,
        ensures
            stalk_dims@.len() == 0 ==> r == Err::<Self, SheafError>(SheafError::EmptySheaf),
            stalk_dims@.len() > 0 && stalk_dims@.contains(0) ==> r == Err::<Self, SheafError>(
                SheafError::InvalidStalkDimension(0),
            ),
            stalk_dims@.len() > 0 && !stalk_dims@.contains(0) ==> (r matches Ok(s) && {
                &&& s.wf()
                &&& s.maps_fit()
                &&& s.num_nodes == stalk_dims@.len()
                &&& s.stalk_dims@ == stalk_dims@
                &&& s.total_dim == dims_prefix(stalk_dims@, stalk_dims@.len() as int)
                &&& s.edges@.len() == 0
            }),
    {
        let num_nodes = stalk_dims.len();
        if num_nodes == 0 {
            return Err(SheafError::EmptySheaf);
        }
        let mut k: usize = 0;
        while k < num_nodes
            invariant
                k <= num_nodes,
                num_nodes == stalk_dims@.len(),
                forall|i: int| 0 <= i < k ==> stalk_dims@[i] != 0,
            decreases num_nodes - k,
        {
            if stalk_dims[k] == 0 {
                return Err(SheafError::InvalidStalkDimension(0));
            }
            k = k + 1;
        }
        let mut total_dim: usize = 0;
        let mut k: usize = 0;
        while k < num_nodes
            invariant
                k <= num_nodes,
                num_nodes == stalk_dims@.len(),
                dims_prefix(stalk_dims@, num_nodes as int) <= usize::MAX,
                total_dim == dims_prefix(stalk_dims@, k as int),
            decreases num_nodes - k,
        {
            proof {
                lemma_dims_prefix_monotone(stalk_dims@, k + 1, num_nodes as int);
            }
            total_dim = total_dim + stalk_dims[k];
            k = k + 1;
        }
        let s = CellularSheaf {
            num_nodes,
            stalk_dims,
            edges: Vec::new(),
            total_dim,
        };
        Ok(s)
    }

    /// The targets of the edges that leave `node`, in the order the edges were added.
    pub open spec fn neighbor_targets(edges: Seq<SheafEdge<T>>, node: usize) -> Seq<usize>
        decreases edges.len(),
    {
        if edges.len() == 0 {
            Seq::empty()
        } else {
            let rest = Self::neighbor_targets(edges.drop_last(), node);
            if edges.last().source == node {
                rest.push(edges.last().target)
            } else {
                rest
            }
        }
    }

    /// The stalk of `node` read out of the stacked cochain `cochain`.
    pub open spec fn stalk_of(&self, node: int, cochain: Seq<T>) -> Seq<T> {
        cochain.subrange(self.offset(node), self.offset(node) + self.dim(node))
    }

    /// `cochain` with the stalk of `node` replaced by `value`.
    pub open spec fn with_stalk(&self, node: int, cochain: Seq<T>, value: Seq<T>) -> Seq<T> {
        cochain.subrange(0, self.offset(node)) + value + cochain.subrange(
            self.offset(node) + self.dim(node),
            cochain.len() as int,
        )
    }

    /// Number of rows of the coboundary matrix taken by the first `k` edges: the sum of
    /// their target stalk dimensions.
    pub open spec fn edge_rows_prefix(&self, k: int) -> int
        decreases k,
    {
        if k <= 0 {
            0
        } else {
            self.edge_rows_prefix(k - 1) + self.stalk_dims@[self.edges@[k - 1].target as int]
        }
    }

    /// The error that reports edge `i`'s restriction map as having the wrong shape.
    pub open spec fn map_error(&self, i: int) -> SheafError {
        let e = self.edges@[i];
        SheafError::InvalidRestrictionMap {
            rows: e.restriction_map.rows,
            cols: e.restriction_map.cols,
            expected_rows: self.stalk_dims@[e.target as int],
            expected_cols: self.stalk_dims@[e.source as int],
        }
    }

    /// Adds an edge from `source` to `target` with the restriction map `restriction_map`.
    ///
    /// Fails, leaving the sheaf unchanged, when an endpoint is not a node (the source is
    /// checked first) or when the map is not target stalk by source stalk.
    pub fn add_edge_with_map(&mut self, source: usize, target: usize, restriction_map: Matrix<T>) -> (r: Result<(), SheafError>)
        requires
            old(self).wf(),
        ensures
            final(self).wf(),
            source >= old(self).num_nodes ==> r == Err::<(), SheafError>(SheafError::NodeNotFound(source)),
            source < old(self).num_nodes && target >= old(self).num_nodes ==> r == Err::<(), SheafError>(
                SheafError::NodeNotFound(target),
            ),
            source < old(self).num_nodes && target < old(self).num_nodes && (restriction_map.rows
                != old(self).stalk_dims@[target as int] || restriction_map.cols != old(self).stalk_dims@[source as int])
                ==> r == Err::<(), SheafError>(
                SheafError::InvalidRestrictionMap {
                    rows: restriction_map.rows,
                    cols: restriction_map.cols,
                    expected_rows: old(self).stalk_dims@[target as int],
                    expected_cols: old(self).stalk_dims@[source as int],
                },
            ),
            r is Err ==> *final(self) == *old(self),
            r is Ok <==> (source < old(self).num_nodes && target < old(self).num_nodes
                && restriction_map.rows == old(self).stalk_dims@[target as int]
                && restriction_map.cols == old(self).stalk_dims@[source as int]),
            r is Ok ==> {
                &&& final(self).num_nodes == old(self).num_nodes
                &&& final(self).stalk_dims@ == old(self).stalk_dims@
                &&& final(self).total_dim == old(self).total_dim
                &&& final(self).edges@ == old(self).edges@.push(
                    SheafEdge { source, target, restriction_map },
                )
            },
    {
        if source >= self.num_nodes {
            return Err(SheafError::NodeNotFound(source));
        }
        if target >= self.num_nodes {
            return Err(SheafError::NodeNotFound(target));
        }
        let expected_rows = self.stalk_dims[target];
        let expected_cols = self.stalk_dims[source];
        if restriction_map.rows != expected_rows || restriction_map.cols != expected_cols {
            return Err(
                SheafError::InvalidRestrictionMap {
                    rows: restriction_map.rows,
                    cols: restriction_map.cols,
                    expected_rows,
                    expected_cols,
                },
            );
        }
        self.edges.push(SheafEdge { source, target, restriction_map });
        Ok(())
    }

    /// Adds an edge from `source` to `target` whose restriction map is the identity when the
    /// two stalks have the same dimension and the zero map otherwise, built from the scalars
    /// `zero` and `one`.
    pub fn add_edge(&mut self, source: usize, target: usize, zero: T, one: T) -> (r: Result<(), SheafError>)
        requires
            old(self).wf(),
            source < old(self).num_nodes && target < old(self).num_nodes ==>
                old(self).stalk_dims@[target as int] * old(self).stalk_dims@[source as int] <= usize::MAX,
        ensures
            final(self).wf(),
            source >= old(self).num_nodes ==> r == Err::<(), SheafError>(SheafError::NodeNotFound(source)),
            source < old(self).num_nodes && target >= old(self).num_nodes ==> r == Err::<(), SheafError>(
                SheafError::NodeNotFound(target),
            ),
            r is Err ==> *final(self) == *old(self),
            r is Ok <==> (source < old(self).num_nodes && target < old(self).num_nodes),
            r is Ok ==> {
                let m = final(self).edges@.last().restriction_map;
                let td = old(self).stalk_dims@[target as int];
                let sd = old(self).stalk_dims@[source as int];
                &&& final(self).num_nodes == old(self).num_nodes
                &&& final(self).stalk_dims@ == old(self).stalk_dims@
                &&& final(self).total_dim == old(self).total_dim
                &&& final(self).edges@.len() == old(self).edges@.len() + 1
                &&& final(self).edges@.drop_last() == old(self).edges@
                &&& final(self).edges@.last().source == source
                &&& final(self).edges@.last().target == target
                &&& m.rows == td
                &&& m.cols == sd
                &&& m.wf()
                &&& forall|i: int, j: int|
                    0 <= i < td && 0 <= j < sd ==> #[trigger] m.entry(i, j) == (if sd == td && i
                        == j {
                        one
                    } else {
                        zero
                    })
                &&& forall|i: int, j: int|
                    0 <= i < td && 0 <= j < sd ==> #[trigger] m.data@[i * sd + j] == (if sd == td
                        && i == j {
                        one
                    } else {
                        zero
                    })
            },
    {
        if source >= self.num_nodes {
            return Err(SheafError::NodeNotFound(source));
        }
        if target >= self.num_nodes {
            return Err(SheafError::NodeNotFound(target));
        }
        let sd = self.stalk_dims[source];
        let td = self.stalk_dims[target];
        let map = if sd == td {
            Matrix::identity(sd, zero, one)
        } else {
            let m = Matrix::zeros(td, sd, zero);
            proof {
                assert forall|i: int, j: int| 0 <= i < td && 0 <= j < sd implies #[trigger] m.entry(i, j) == zero by {
                    crate::matrix::lemma_row_major_bounds(td as int, sd as int, i, j);
                }
            }
            m
        };
        proof {
            assert forall|i: int, j: int| 0 <= i < td && 0 <= j < sd implies #[trigger] map.data@[i * sd + j]
                == (if sd == td && i == j {
                one
            } else {
                zero
            }) by {
                assert(map.entry(i, j) == (if sd == td && i == j {
                    one
                } else {
                    zero
                }));
            }
        }
        let r = self.add_edge_with_map(source, target, map);
        proof {
            assert(self.edges@.drop_last() == old(self).edges@);
        }
        r
    }

    /// The restriction map of the most recently added edge from `source` to `target`.
    pub fn restriction_map(&self, source: usize, target: usize) -> (r: Option<&Matrix<T>>)
        ensures
            r is None <==> !self.spec_has_edge(source, target),
            r matches Some(m) ==> exists|i: int| self.is_last_edge(i, source, target) && *m == self.edges@[i].restriction_map,
            r is None <==> forall|i: int|
                0 <= i < self.edges@.len() ==> !((#[trigger] self.edges@[i]).source == source
                    && self.edges@[i].target == target),
            r matches Some(m) ==> exists|i: int|
                0 <= i < self.edges@.len() && (#[trigger] self.edges@[i]).source == source
                    && self.edges@[i].target == target && *m == self.edges@[i].restriction_map
                    && forall|j: int|
                    i < j < self.edges@.len() ==> !((#[trigger] self.edges@[j]).source == source
                        && self.edges@[j].target == target),
    {
        let mut k: usize = self.edges.len();
        while k > 0
            invariant
                k <= self.edges@.len(),
                forall|j: int| k <= j < self.edges@.len() ==> !Self::links(#[trigger] self.edges@[j], source, target),
            decreases k,
        {
            k = k - 1;
            if self.edges[k].source == source && self.edges[k].target == target {
                proof {
                    assert(self.is_last_edge(k as int, source, target));
                }
                return Some(&self.edges[k].restriction_map);
            }
        }
        None
    }

    /// Whether some edge goes from `source` to `target`.
    pub fn has_edge(&self, source: usize, target: usize) -> (r: bool)
        ensures
            r == self.spec_has_edge(source, target),
            r == exists|i: int|
                0 <= i < self.edges@.len() && (#[trigger] self.edges@[i]).source == source
                    && self.edges@[i].target == target,
    {
        let mut k: usize = 0;
        while k < self.edges.len()
            invariant
                k <= self.edges@.len(),
                forall|j: int| 0 <= j < k ==> !Self::links(#[trigger] self.edges@[j], source, target),
            decreases self.edges@.len() - k,
        {
            if self.edges[k].source == source && self.edges[k].target == target {
                return true;
            }
            k = k + 1;
        }
        false
    }

    /// The targets of the edges leaving `node`, in the order the edges were added.
    pub fn neighbors(&self, node: usize) -> (r: Vec<usize>)
        ensures
            r@ == Self::neighbor_targets(self.edges@, node),
            r@ == self.edges@.filter(|e: SheafEdge<T>| e.source == node).map_values(
                |e: SheafEdge<T>| e.target,
            ),
    {
        let mut r: Vec<usize> = Vec::new();
        let mut k: usize = 0;
        while k < self.edges.len()
            invariant
                k <= self.edges@.len(),
                r@ == Self::neighbor_targets(self.edges@.subrange(0, k as int), node),
            decreases self.edges@.len() - k,
        {
            proof {
                assert(self.edges@.subrange(0, k + 1).drop_last() == self.edges@.subrange(0, k as int));
            }
            if self.edges[k].source == node {
                r.push(self.edges[k].target);
            }
            k = k + 1;
        }
        proof {
            assert(self.edges@.subrange(0, k as int) == self.edges@);
            Self::lemma_neighbor_targets_filter(self.edges@, node);
        }
        r
    }

    /// The neighbour targets are the targets of the edges that leave `node`, one per edge,
    /// in edge order.
    pub proof fn lemma_neighbor_targets_filter(edges: Seq<SheafEdge<T>>, node: usize)
        ensures
            Self::neighbor_targets(edges, node) == edges.filter(
                |e: SheafEdge<T>| e.source == node,
            ).map_values(|e: SheafEdge<T>| e.target),
        decreases edges.len(),
    {
        reveal(Seq::filter);
        let pred = |e: SheafEdge<T>| e.source == node;
        let f = |e: SheafEdge<T>| e.target;
        if edges.len() > 0 {
            Self::lemma_neighbor_targets_filter(edges.drop_last(), node);
            let sub = edges.drop_last().filter(pred);
            if pred(edges.last()) {
                assert(sub.push(edges.last()).map_values(f) =~= sub.map_values(f).push(
                    edges.last().target,
                ));
            }
        } else {
            assert(edges.filter(pred).map_values(f) =~= Seq::<usize>::empty());
        }
    }

    /// Number of edges.
    pub fn num_edges(&self) -> (r: usize)
        ensures
            r == self.edges@.len(),
    {
        self.edges.len()
    }

    /// Offset of the stalk of `node` in a stacked cochain: the sum of the dimensions of the
    /// stalks of the nodes before it.
    pub fn node_offset(&self, node: usize) -> (r: usize)
        requires
            self.wf(),
            node <= self.num_nodes,
        ensures
            r == self.offset(node as int),
    {
        let mut sum: usize = 0;
        let mut k: usize = 0;
        while k < node
            invariant
                self.wf(),
                k <= node <= self.num_nodes,
                sum == dims_prefix(self.stalk_dims@, k as int),
            decreases node - k,
        {
            proof {
                lemma_dims_prefix_monotone(self.stalk_dims@, k + 1, self.num_nodes as int);
            }
            sum = sum + self.stalk_dims[k];
            k = k + 1;
        }
        sum
    }

    /// The stalk of `node` copied out of the stacked cochain `cochain`.
    pub fn extract_stalk(&self, node: usize, cochain: &[T]) -> (r: Vec<T>)
        requires
            self.wf(),
            node < self.num_nodes,
            self.offset(node as int) + self.dim(node as int) <= cochain@.len(),
        ensures
            r@ == self.stalk_of(node as int, cochain@),
            r@.len() == self.stalk_dims@[node as int],
            forall|q: int|
                0 <= q < self.stalk_dims@[node as int] ==> #[trigger] r@[q] == cochain@[self.offset(
                    node as int,
                ) + q],
    {
        let offset = self.node_offset(node);
        let dim = self.stalk_dims[node];
        let len = cochain.len();
        let mut r: Vec<T> = Vec::new();
        let mut k: usize = 0;
        while k < dim
            invariant
                k <= dim,
                dim == self.dim(node as int),
                offset == self.offset(node as int),
                offset + dim <= cochain@.len(),
                len == cochain@.len(),
                r@ == cochain@.subrange(offset as int, offset + k),
            decreases dim - k,
        {
            r.push(cochain[offset + k]);
            k = k + 1;
        }
        r
    }

    /// Writes `value` into the stalk of `node` in the stacked cochain `cochain`.
    ///
    /// Fails, leaving the cochain unchanged, when `value` does not have the stalk's dimension.
    pub fn set_stalk(&self, node: usize, cochain: &mut [T], value: &[T]) -> (r: Result<(), SheafError>)
        requires
            self.wf(),
            node < self.num_nodes,
            value@.len() == self.dim(node as int) ==> self.offset(node as int) + self.dim(node as int)
                <= old(cochain)@.len(),
        ensures
            value@.len() != self.dim(node as int) ==> r == Err::<(), SheafError>(
                SheafError::DimensionMismatch { expected: self.stalk_dims@[node as int], actual: value@.len() as usize },
            ) && final(cochain)@ == old(cochain)@,
            value@.len() == self.dim(node as int) ==> r is Ok && final(cochain)@ == self.with_stalk(
                node as int,
                old(cochain)@,
                value@,
            ),
            final(cochain)@.len() == old(cochain)@.len(),
            value@.len() == self.stalk_dims@[node as int] ==> forall|q: int|
                0 <= q < value@.len() ==> #[trigger] final(cochain)@[self.offset(node as int) + q]
                    == value@[q],
            forall|q: int|
                0 <= q < old(cochain)@.len() && !(self.offset(node as int) <= q < self.offset(
                    node as int,
                ) + value@.len()) ==> #[trigger] final(cochain)@[q] == old(cochain)@[q],
    {
        let dim = self.stalk_dims[node];
        if value.len() != dim {
            return Err(SheafError::DimensionMismatch { expected: dim, actual: value.len() });
        }
        let offset = self.node_offset(node);
        let len = cochain.len();
        let mut k: usize = 0;
        while k < dim
            invariant
                k <= dim,
                len == old(cochain)@.len(),
                dim == self.dim(node as int),
                dim == value@.len(),
                offset == self.offset(node as int),
                offset + dim <= old(cochain)@.len(),
                cochain@.len() == old(cochain)@.len(),
                forall|q: int| 0 <= q < offset ==> cochain@[q] == old(cochain)@[q],
                forall|q: int| 0 <= q < k ==> cochain@[offset + q] == value@[q],
                forall|q: int| offset + k <= q < cochain@.len() ==> cochain@[q] == old(cochain)@[q],
            decreases dim - k,
        {
            cochain[offset + k] = value[k];
            k = k + 1;
        }
        proof {
            assert(cochain@ == self.with_stalk(node as int, old(cochain)@, value@));
        }
        Ok(())
    }

    /// Checks that every restriction map has the shape target stalk by source stalk,
    /// reporting the first edge, in insertion order, whose map does not.
    pub fn validate(&self) -> (r: Result<(), SheafError>)
        requires
            self.wf(),
        ensures
            r is Ok <==> self.maps_fit(),
            r matches Err(e) ==> exists|i: int|
                0 <= i < self.edges@.len() && !self.edge_map_fits(i) && (forall|j: int| 0 <= j < i ==> self.edge_map_fits(j)) && e == self.map_error(i),
            r is Ok <==> forall|i: int|
                0 <= i < self.edges@.len() ==> (#[trigger] self.edges@[i]).restriction_map.rows
                    == self.stalk_dims@[self.edges@[i].target as int]
                    && self.edges@[i].restriction_map.cols
                    == self.stalk_dims@[self.edges@[i].source as int],
            r matches Err(e) ==> exists|i: int|
                0 <= i < self.edges@.len() && ((#[trigger] self.edges@[i]).restriction_map.rows
                    != self.stalk_dims@[self.edges@[i].target as int]
                    || self.edges@[i].restriction_map.cols
                    != self.stalk_dims@[self.edges@[i].source as int]) && (forall|j: int|
                    0 <= j < i ==> (#[trigger] self.edges@[j]).restriction_map.rows
                        == self.stalk_dims@[self.edges@[j].target as int]
                        && self.edges@[j].restriction_map.cols
                        == self.stalk_dims@[self.edges@[j].source as int]) && e
                    == (SheafError::InvalidRestrictionMap {
                    rows: self.edges@[i].restriction_map.rows,
                    cols: self.edges@[i].restriction_map.cols,
                    expected_rows: self.stalk_dims@[self.edges@[i].target as int],
                    expected_cols: self.stalk_dims@[self.edges@[i].source as int],
                }),
    {
        let mut k: usize = 0;
        while k < self.edges.len()
            invariant
                self.wf(),
                k <= self.edges@.len(),
                forall|j: int| 0 <= j < k ==> #[trigger] self.edge_map_fits(j),
                forall|j: int|
                    0 <= j < k ==> (#[trigger] self.edges@[j]).restriction_map.rows
                        == self.stalk_dims@[self.edges@[j].target as int]
                        && self.edges@[j].restriction_map.cols
                        == self.stalk_dims@[self.edges@[j].source as int],
            decreases self.edges@.len() - k,
        {
            let edge = &self.edges[k];
            let expected_rows = self.stalk_dims[edge.target];
            let expected_cols = self.stalk_dims[edge.source];
            if edge.restriction_map.rows != expected_rows || edge.restriction_map.cols != expected_cols {
                proof {
                    assert(!self.edge_map_fits(k as int));
                    assert(self.edges@[k as int] == *edge);
                }
                return Err(
                    SheafError::InvalidRestrictionMap {
                        rows: edge.restriction_map.rows,
                        cols: edge.restriction_map.cols,
                        expected_rows,
                        expected_cols,
                    },
                );
            }
            k = k + 1;
        }
        Ok(())
    }

    /// `layout` places the blocks of the coboundary matrix of this sheaf.
    ///
    /// The coboundary matrix has one row per component of every edge's target stalk and one
    /// column per component of the stacked cochain. Edge `k` owns the rows
    /// `row_offset .. row_offset + rows` of block `k`; there it holds minus its restriction
    /// map in the columns of the source stalk and the identity in the columns of the target
    /// stalk.
    pub open spec fn is_coboundary_layout(&self, layout: CoboundaryLayout) -> bool {
        &&& layout.cols == self.total_dim
        &&& layout.rows == self.edge_rows_prefix(self.edges@.len() as int)
        &&& layout.blocks@.len() == self.edges@.len()
        &&& forall|k: int|
            0 <= k < self.edges@.len() ==> {
                let b = #[trigger] layout.blocks@[k];
                let e = self.edges@[k];
                &&& b.row_offset == self.edge_rows_prefix(k)
                &&& b.rows == self.stalk_dims@[e.target as int]
                &&& b.cols == self.stalk_dims@[e.source as int]
                &&& b.source_offset == self.offset(e.source as int)
                &&& b.target_offset == self.offset(e.target as int)
            }
    }

    /// The block layout of the coboundary matrix (see [`Self::is_coboundary_layout`]).
    ///
    /// Every block lies inside the matrix, and consecutive blocks take consecutive rows.
    pub fn coboundary_layout(&self) -> (layout: CoboundaryLayout)
        requires
            self.wf(),
            self.edge_rows_prefix(self.edges@.len() as int) <= usize::MAX,
        ensures
            self.is_coboundary_layout(layout),
            layout.cols == self.total_dim,
            layout.blocks@.len() == self.edges@.len(),
            layout.blocks@.len() == 0 ==> layout.rows == 0,
            layout.blocks@.len() > 0 ==> layout.blocks@[0].row_offset == 0,
            forall|k: int| 0 <= k < layout.blocks@.len() ==> {
                let b = #[trigger] layout.blocks@[k];
                let e = self.edges@[k];
                &&& b.rows == self.stalk_dims@[e.target as int]
                &&& b.cols == self.stalk_dims@[e.source as int]
                &&& b.source_offset == self.offset(e.source as int)
                &&& b.target_offset == self.offset(e.target as int)
            },
            forall|k: int| 0 <= k < layout.blocks@.len() ==> {
                let b = #[trigger] layout.blocks@[k];
                &&& b.row_offset + b.rows <= layout.rows
                &&& k + 1 < layout.blocks@.len() ==> b.row_offset + b.rows == layout.blocks@[k + 1].row_offset
                &&& k + 1 == layout.blocks@.len() ==> b.row_offset + b.rows == layout.rows
                &&& b.source_offset + b.cols <= layout.cols
                &&& b.target_offset + b.rows <= layout.cols
            },
    {
        let mut blocks: Vec<CoboundaryBlock> = Vec::new();
        let mut row_offset: usize = 0;
        let mut k: usize = 0;
        while k < self.edges.len()
            invariant
                self.wf(),
                self.edge_rows_prefix(self.edges@.len() as int) <= usize::MAX,
                k <= self.edges@.len(),
                row_offset == self.edge_rows_prefix(k as int),
                blocks@.len() == k,
                forall|q: int|
                    0 <= q < k ==> {
                        let b = #[trigger] blocks@[q];
                        let e = self.edges@[q];
                        &&& b.row_offset == self.edge_rows_prefix(q)
                        &&& b.rows == self.stalk_dims@[e.target as int]
                        &&& b.cols == self.stalk_dims@[e.source as int]
                        &&& b.source_offset == self.offset(e.source as int)
                        &&& b.target_offset == self.offset(e.target as int)
                    },
            decreases self.edges@.len() - k,
        {
            let source = self.edges[k].source;
            let target = self.edges[k].target;
            let rows = self.stalk_dims[target];
            let cols = self.stalk_dims[source];
            let source_offset = self.node_offset(source);
            let target_offset = self.node_offset(target);
            proof {
                self.lemma_edge_rows_prefix_monotone(k as int + 1, self.edges@.len() as int);
            }
            blocks.push(CoboundaryBlock { row_offset, rows, cols, source_offset, target_offset });
            row_offset = row_offset + rows;
            k = k + 1;
        }
        let layout = CoboundaryLayout { rows: row_offset, cols: self.total_dim, blocks };
        proof {
            assert forall|k: int| 0 <= k < layout.blocks@.len() implies {
                let b = #[trigger] layout.blocks@[k];
                &&& b.row_offset + b.rows <= layout.rows
                &&& k + 1 < layout.blocks@.len() ==> b.row_offset + b.rows == layout.blocks@[k + 1].row_offset
                &&& k + 1 == layout.blocks@.len() ==> b.row_offset + b.rows == layout.rows
                &&& b.source_offset + b.cols <= layout.cols
                &&& b.target_offset + b.rows <= layout.cols
            } by {
                let e = self.edges@[k];
                self.lemma_edge_rows_prefix_monotone(k + 1, self.edges@.len() as int);
                self.lemma_stalk_within(e.source as int);
                self.lemma_stalk_within(e.target as int);
            }
        }
        layout
    }

    /// The row counts of the coboundary blocks accumulate monotonically.
    pub proof fn lemma_edge_rows_prefix_monotone(&self, a: int, b: int)
        requires
            0 <= a <= b,
        ensures
            self.edge_rows_prefix(a) <= self.edge_rows_prefix(b),
        decreases b - a,
    {
        if a < b {
            self.lemma_edge_rows_prefix_monotone(a, b - 1);
        }
    }

    /// The stalk of every node lies inside the stacked cochain.
    pub proof fn lemma_stalk_within(&self, node: int)
        requires
            self.wf(),
            0 <= node < self.num_nodes,
        ensures
            0 <= self.offset(node),
            self.offset(node) + self.dim(node) == self.offset(node + 1),
            self.offset(node + 1) <= self.total_dim,
    {
        lemma_dims_prefix_monotone(self.stalk_dims@, 0, node);
        lemma_dims_prefix_monotone(self.stalk_dims@, node + 1, self.num_nodes as int);
    }
}

} // verus!
