use vstd::prelude::*;

use crate::matrix::{lemma_row_major_decompose, Matrix};
use crate::error::SheafError;
use crate::sheaf::{lemma_dims_prefix_monotone, CellularSheaf, CoboundaryLayout, SheafEdge};

verus! {

/// The stalks of the nodes tile the stacked cochain: the first starts at 0, each one
/// starts where the one before it ends, and the last one ends at `total_dim`.
pub proof fn law_stalks_tile_cochain<T: Copy>(sheaf: CellularSheaf<T>, node: int)
    requires
        sheaf.wf(),
        0 <= node < sheaf.num_nodes,
    ensures
        sheaf.offset(0) == 0,
        sheaf.offset(node) + sheaf.dim(node) == sheaf.offset(node + 1),
        sheaf.offset(sheaf.num_nodes as int) == sheaf.total_dim,
{
}

/// Stalks of distinct nodes do not overlap.
pub proof fn law_stalks_disjoint<T: Copy>(sheaf: CellularSheaf<T>, a: int, b: int)
    requires
        sheaf.wf(),
        0 <= a < b < sheaf.num_nodes,
    ensures
        sheaf.offset(a) + sheaf.dim(a) <= sheaf.offset(b),
{
    lemma_dims_prefix_monotone(sheaf.stalk_dims@, a + 1, b);
}

/// Reading the stalk of a node after writing `value` into it gives back `value`, and the
/// write keeps the length of the cochain.
pub proof fn law_stalk_read_after_write<T: Copy>(
    sheaf: CellularSheaf<T>,
    node: int,
    cochain: Seq<T>,
    value: Seq<T>,
)
    requires
        sheaf.wf(),
        0 <= node < sheaf.num_nodes,
        value.len() == sheaf.dim(node),
        sheaf.offset(node) + sheaf.dim(node) <= cochain.len(),
    ensures
        sheaf.with_stalk(node, cochain, value).len() == cochain.len(),
        sheaf.stalk_of(node, sheaf.with_stalk(node, cochain, value)) == value,
{
    lemma_dims_prefix_monotone(sheaf.stalk_dims@, 0, node);
    let w = sheaf.with_stalk(node, cochain, value);
    assert(sheaf.stalk_of(node, w) =~= value);
}

/// Writing the stalk of one node leaves the stalk of every other node as it was.
pub proof fn law_stalk_write_keeps_others<T: Copy>(
    sheaf: CellularSheaf<T>,
    node: int,
    other: int,
    cochain: Seq<T>,
    value: Seq<T>,
)
    requires
        sheaf.wf(),
        0 <= node < sheaf.num_nodes,
        0 <= other < sheaf.num_nodes,
        node != other,
        value.len() == sheaf.dim(node),
        sheaf.total_dim <= cochain.len(),
    ensures
        sheaf.stalk_of(other, sheaf.with_stalk(node, cochain, value)) == sheaf.stalk_of(
            other,
            cochain,
        ),
{
    lemma_dims_prefix_monotone(sheaf.stalk_dims@, 0, node);
    lemma_dims_prefix_monotone(sheaf.stalk_dims@, 0, other);
    lemma_dims_prefix_monotone(sheaf.stalk_dims@, node + 1, sheaf.num_nodes as int);
    lemma_dims_prefix_monotone(sheaf.stalk_dims@, other + 1, sheaf.num_nodes as int);
    if other < node {
        lemma_dims_prefix_monotone(sheaf.stalk_dims@, other + 1, node);
    } else {
        lemma_dims_prefix_monotone(sheaf.stalk_dims@, node + 1, other);
    }
    let w = sheaf.with_stalk(node, cochain, value);
    assert(sheaf.stalk_of(other, w) =~= sheaf.stalk_of(other, cochain));
}

/// After an edge is appended, an edge joins its endpoints and the most recent one between
/// them is the new edge, so a lookup finds its restriction map.
pub proof fn law_added_edge_is_found<T: Copy>(
    before: CellularSheaf<T>,
    after: CellularSheaf<T>,
    edge: SheafEdge<T>,
)
    requires
        after.edges@ == before.edges@.push(edge),
    ensures
        after.spec_has_edge(edge.source, edge.target),
        after.is_last_edge(before.edges@.len() as int, edge.source, edge.target),
        forall|i: int|
            after.is_last_edge(i, edge.source, edge.target) ==> after.edges@[i].restriction_map
                == edge.restriction_map,
{
    let n = before.edges@.len() as int;
    assert(after.edges@[n] == edge);
    assert forall|i: int| after.is_last_edge(i, edge.source, edge.target) implies after.edges@[i].restriction_map
        == edge.restriction_map by {
        if i < n {
            assert(CellularSheaf::<T>::links(after.edges@[n], edge.source, edge.target));
        }
    }
}

/// Appending an edge whose map has the right shape keeps every map of the right shape, so a
/// sheaf built only through `add_edge` and `add_edge_with_map` always validates.
pub proof fn law_added_edge_keeps_maps_fit<T: Copy>(
    before: CellularSheaf<T>,
    after: CellularSheaf<T>,
    edge: SheafEdge<T>,
)
    requires
        before.maps_fit(),
        after.stalk_dims@ == before.stalk_dims@,
        after.edges@ == before.edges@.push(edge),
        edge.restriction_map.rows == before.stalk_dims@[edge.target as int],
        edge.restriction_map.cols == before.stalk_dims@[edge.source as int],
    ensures
        after.maps_fit(),
{
    assert forall|i: int| 0 <= i < after.edges@.len() implies #[trigger] after.edge_map_fits(i) by {
        if i < before.edges@.len() {
            assert(before.edge_map_fits(i));
        }
    }
}

/// A node's neighbour list holds exactly the targets of the edges that leave it.
pub proof fn law_neighbors_are_edge_targets<T: Copy>(
    edges: Seq<SheafEdge<T>>,
    source: usize,
    target: usize,
)
    ensures
        CellularSheaf::<T>::neighbor_targets(edges, source).contains(target) <==> exists|i: int|
            0 <= i < edges.len() && CellularSheaf::<T>::links(#[trigger] edges[i], source, target),
    decreases edges.len(),
{
    if edges.len() > 0 {
        let rest = edges.drop_last();
        law_neighbors_are_edge_targets(rest, source, target);
        let nr = CellularSheaf::<T>::neighbor_targets(rest, source);
        if exists|i: int| 0 <= i < edges.len() && CellularSheaf::<T>::links(#[trigger] edges[i], source, target) {
            let i = choose|i: int| 0 <= i < edges.len() && CellularSheaf::<T>::links(#[trigger] edges[i], source, target);
            if i < edges.len() - 1 {
                assert(rest[i] == edges[i]);
                assert(nr.contains(target));
                if edges.last().source == source {
                    assert(nr.push(edges.last().target)[nr.index_of(target)] == target);
                }
            } else {
                assert(nr.push(edges.last().target)[nr.len() as int] == target);
            }
        }
        if CellularSheaf::<T>::neighbor_targets(edges, source).contains(target) {
            if !nr.contains(target) {
                let full = CellularSheaf::<T>::neighbor_targets(edges, source);
                let k = choose|k: int| 0 <= k < full.len() && full[k] == target;
                assert(edges.last().source == source);
                assert(k == nr.len());
                assert(CellularSheaf::<T>::links(edges[edges.len() - 1], source, target));
            } else {
                let k = choose|k: int| 0 <= k < rest.len() && CellularSheaf::<T>::links(#[trigger] rest[k], source, target);
                assert(edges[k] == rest[k]);
            }
        }
    }
}

/// Transposing twice gives back the matrix.
pub proof fn law_transpose_involutive<T: Copy>(m: Matrix<T>, t: Matrix<T>, tt: Matrix<T>)
    requires
        m.wf(),
        Matrix::<T>::is_transpose_of(t, m),
        Matrix::<T>::is_transpose_of(tt, t),
    ensures
        tt.rows == m.rows,
        tt.cols == m.cols,
        tt.data@ == m.data@,
{
    assert forall|k: int| 0 <= k < m.data@.len() implies tt.data@[k] == m.data@[k] by {
        if m.cols == 0 {
            assert(m.rows * m.cols == 0) by (nonlinear_arith)
                requires
                    m.cols == 0,
            ;
        }
        lemma_row_major_decompose(m.rows as int, m.cols as int, k);
        let i = k / (m.cols as int);
        let j = k % (m.cols as int);
        assert(tt.entry(i, j) == t.entry(j, i));
    }
    assert(tt.data@ =~= m.data@);
}

/// A sheaf's maps fit, which is what `validate` accepts, exactly when every restriction map
/// has one row per dimension of its target stalk and one column per dimension of its source
/// stalk; the error for a misfit edge reports the map's shape and the expected shape.
pub proof fn law_fitting_maps_match_both_stalks<T: Copy>(sheaf: CellularSheaf<T>)
    ensures
        sheaf.maps_fit() <==> forall|i: int|
            0 <= i < sheaf.edges@.len() ==> (#[trigger] sheaf.edges@[i]).restriction_map.rows
                == sheaf.stalk_dims@[sheaf.edges@[i].target as int]
                && sheaf.edges@[i].restriction_map.cols
                == sheaf.stalk_dims@[sheaf.edges@[i].source as int],
        forall|i: int|
            0 <= i < sheaf.edges@.len() ==> #[trigger] sheaf.map_error(i) == (
            SheafError::InvalidRestrictionMap {
                rows: sheaf.edges@[i].restriction_map.rows,
                cols: sheaf.edges@[i].restriction_map.cols,
                expected_rows: sheaf.stalk_dims@[sheaf.edges@[i].target as int],
                expected_cols: sheaf.stalk_dims@[sheaf.edges@[i].source as int],
            }),
{
    if sheaf.maps_fit() {
        assert forall|i: int| 0 <= i < sheaf.edges@.len() implies (#[trigger] sheaf.edges@[i]).restriction_map.rows
            == sheaf.stalk_dims@[sheaf.edges@[i].target as int]
            && sheaf.edges@[i].restriction_map.cols
            == sheaf.stalk_dims@[sheaf.edges@[i].source as int] by {
            assert(sheaf.edge_map_fits(i));
        }
    }
    if forall|i: int|
        0 <= i < sheaf.edges@.len() ==> (#[trigger] sheaf.edges@[i]).restriction_map.rows
            == sheaf.stalk_dims@[sheaf.edges@[i].target as int]
            && sheaf.edges@[i].restriction_map.cols
            == sheaf.stalk_dims@[sheaf.edges@[i].source as int] {
        assert forall|i: int| 0 <= i < sheaf.edges@.len() implies #[trigger] sheaf.edge_map_fits(i) by {
            assert(sheaf.edges@[i].restriction_map.rows == sheaf.stalk_dims@[sheaf.edges@[i].target as int]);
        }
    }
}

/// The blocks of a coboundary layout start at row 0, follow each other without gaps, each
/// takes one row per dimension of its edge's target stalk, and together they take exactly
/// the rows of the matrix; with no edges the matrix has no rows.
pub proof fn law_coboundary_blocks_tile_rows<T: Copy>(
    sheaf: CellularSheaf<T>,
    layout: CoboundaryLayout,
)
    requires
        sheaf.is_coboundary_layout(layout),
    ensures
        layout.blocks@.len() == sheaf.edges@.len(),
        layout.blocks@.len() == 0 ==> layout.rows == 0,
        layout.blocks@.len() > 0 ==> layout.blocks@[0].row_offset == 0,
        forall|k: int|
            0 <= k < layout.blocks@.len() ==> {
                let b = #[trigger] layout.blocks@[k];
                &&& b.rows == sheaf.stalk_dims@[sheaf.edges@[k].target as int]
                &&& k + 1 < layout.blocks@.len() ==> b.row_offset + b.rows
                    == layout.blocks@[k + 1].row_offset
                &&& k + 1 == layout.blocks@.len() ==> b.row_offset + b.rows == layout.rows
            },
{
    if layout.blocks@.len() > 0 {
        assert(layout.blocks@[0].row_offset == sheaf.edge_rows_prefix(0));
    }
    assert forall|k: int| 0 <= k < layout.blocks@.len() implies {
        let b = #[trigger] layout.blocks@[k];
        &&& b.rows == sheaf.stalk_dims@[sheaf.edges@[k].target as int]
        &&& k + 1 < layout.blocks@.len() ==> b.row_offset + b.rows == layout.blocks@[k + 1].row_offset
        &&& k + 1 == layout.blocks@.len() ==> b.row_offset + b.rows == layout.rows
    } by {
        assert(sheaf.edge_rows_prefix(k + 1) == sheaf.edge_rows_prefix(k) + sheaf.stalk_dims@[sheaf.edges@[k].target as int]);
        if k + 1 < layout.blocks@.len() {
            assert(layout.blocks@[k + 1].row_offset == sheaf.edge_rows_prefix(k + 1));
        }
    }
}

/// The stalk of a node is the run of cochain components that starts at the node's offset,
/// one per stalk dimension, in order; writing a stalk puts the value's components at exactly
/// those positions and leaves every other component as it was.
pub proof fn law_stalk_is_run_at_offset<T: Copy>(
    sheaf: CellularSheaf<T>,
    node: int,
    cochain: Seq<T>,
    value: Seq<T>,
)
    requires
        sheaf.wf(),
        0 <= node < sheaf.num_nodes,
        sheaf.offset(node) + sheaf.stalk_dims@[node] <= cochain.len(),
        value.len() == sheaf.stalk_dims@[node],
    ensures
        sheaf.stalk_of(node, cochain).len() == sheaf.stalk_dims@[node],
        forall|q: int|
            0 <= q < sheaf.stalk_dims@[node] ==> #[trigger] sheaf.stalk_of(node, cochain)[q]
                == cochain[sheaf.offset(node) + q],
        sheaf.with_stalk(node, cochain, value).len() == cochain.len(),
        forall|q: int|
            0 <= q < value.len() ==> #[trigger] sheaf.with_stalk(node, cochain, value)[sheaf.offset(
                node,
            ) + q] == value[q],
        forall|q: int|
            0 <= q < cochain.len() && !(sheaf.offset(node) <= q < sheaf.offset(node) + value.len())
                ==> #[trigger] sheaf.with_stalk(node, cochain, value)[q] == cochain[q],
{
    lemma_dims_prefix_monotone(sheaf.stalk_dims@, 0, node);
}

/// A node's neighbour list has one entry per edge leaving the node, in edge order, and the
/// entry is that edge's target.
pub proof fn law_neighbors_one_per_leaving_edge<T: Copy>(edges: Seq<SheafEdge<T>>, node: usize)
    ensures
        CellularSheaf::<T>::neighbor_targets(edges, node) == edges.filter(
            |e: SheafEdge<T>| e.source == node,
        ).map_values(|e: SheafEdge<T>| e.target),
        CellularSheaf::<T>::neighbor_targets(edges, node).len() == edges.filter(
            |e: SheafEdge<T>| e.source == node,
        ).len(),
{
    CellularSheaf::<T>::lemma_neighbor_targets_filter(edges, node);
}

/// Edge lookups go by endpoints: an edge joins two nodes exactly when some edge has them as
/// source and target, and the edge a lookup finds is the last one with those endpoints.
pub proof fn law_edge_lookup_by_endpoints<T: Copy>(
    sheaf: CellularSheaf<T>,
    source: usize,
    target: usize,
    i: int,
)
    ensures
        sheaf.spec_has_edge(source, target) <==> exists|j: int|
            0 <= j < sheaf.edges@.len() && (#[trigger] sheaf.edges@[j]).source == source
                && sheaf.edges@[j].target == target,
        sheaf.is_last_edge(i, source, target) <==> {
            &&& 0 <= i < sheaf.edges@.len()
            &&& sheaf.edges@[i].source == source
            &&& sheaf.edges@[i].target == target
            &&& forall|j: int|
                i < j < sheaf.edges@.len() ==> !((#[trigger] sheaf.edges@[j]).source == source
                    && sheaf.edges@[j].target == target)
        },
{
}

} // verus!
