use sheaf_agents::{CellularSheaf, Matrix, SheafError};

fn uniform(n: usize, d: usize) -> CellularSheaf<f64> {
    CellularSheaf::new_uniform(n, d).unwrap()
}

// ---- Sheaf construction ----

#[test]
fn test_uniform_creation() {
    let sheaf = uniform(5, 3);
    assert_eq!(sheaf.num_nodes, 5);
    assert_eq!(sheaf.total_dim, 15);
    assert_eq!(sheaf.stalk_dims, vec![3; 5]);
}

#[test]
fn test_empty_sheaf_error() {
    assert!(CellularSheaf::<f64>::new_uniform(0, 3).is_err());
}

#[test]
fn test_zero_stalk_error() {
    assert!(CellularSheaf::<f64>::new_uniform(3, 0).is_err());
}

#[test]
fn test_add_edges() {
    let mut sheaf = uniform(4, 2);
    sheaf.add_edge(0, 1, 0.0, 1.0).unwrap();
    sheaf.add_edge(1, 2, 0.0, 1.0).unwrap();
    sheaf.add_edge(2, 3, 0.0, 1.0).unwrap();
    assert_eq!(sheaf.num_edges(), 3);
    assert!(sheaf.has_edge(0, 1));
    assert!(!sheaf.has_edge(3, 0));
}

#[test]
fn test_custom_restriction_map() {
    let mut sheaf = uniform(3, 2);
    let map = Matrix::from_row_slice(2, 2, &[1.0, 2.0, 3.0, 4.0]);
    sheaf.add_edge_with_map(0, 1, map).unwrap();
    let rm = sheaf.restriction_map(0, 1).unwrap();
    assert!((rm.get(0, 0) - 1.0).abs() < 1e-10);
    assert!((rm.get(0, 1) - 2.0).abs() < 1e-10);
    assert!((rm.get(1, 0) - 3.0).abs() < 1e-10);
    assert!((rm.get(1, 1) - 4.0).abs() < 1e-10);
}

#[test]
fn test_invalid_node_error() {
    let mut sheaf = uniform(3, 2);
    assert!(sheaf.add_edge(0, 5, 0.0, 1.0).is_err());
}

#[test]
fn test_invalid_restriction_map() {
    let mut sheaf = uniform(3, 2);
    let wrong_map = Matrix::identity(3, 0.0, 1.0); // 3x3 instead of 2x2
    assert!(sheaf.add_edge_with_map(0, 1, wrong_map).is_err());
}

#[test]
fn test_neighbors() {
    let mut sheaf = uniform(4, 2);
    sheaf.add_edge(0, 1, 0.0, 1.0).unwrap();
    sheaf.add_edge(0, 2, 0.0, 1.0).unwrap();
    sheaf.add_edge(1, 3, 0.0, 1.0).unwrap();
    assert_eq!(sheaf.neighbors(0), vec![1, 2]);
}

#[test]
fn test_extract_set_stalk() {
    let sheaf = uniform(3, 2);
    let mut cochain = vec![0.0; 6];
    sheaf.set_stalk(1, &mut cochain, &[3.0, 4.0]).unwrap();
    let extracted = sheaf.extract_stalk(1, &cochain);
    assert!((extracted[0] - 3.0).abs() < 1e-10);
    assert!((extracted[1] - 4.0).abs() < 1e-10);
}

#[test]
fn test_heterogeneous_stalk_dims() {
    let sheaf: CellularSheaf<f64> = CellularSheaf::new(vec![2, 3, 4]).unwrap();
    assert_eq!(sheaf.total_dim, 9);
    assert_eq!(sheaf.node_offset(0), 0);
    assert_eq!(sheaf.node_offset(1), 2);
    assert_eq!(sheaf.node_offset(2), 5);
}

#[test]
fn test_validate() {
    let mut sheaf = uniform(3, 2);
    sheaf.add_edge(0, 1, 0.0, 1.0).unwrap();
    assert!(sheaf.validate().is_ok());
}

// ---- Matrix ----

#[test]
fn test_matrix_identity() {
    let m: Matrix<f64> = Matrix::identity(3, 0.0, 1.0);
    assert!((m.get(0, 0) - 1.0).abs() < 1e-10);
    assert!((m.get(1, 1) - 1.0).abs() < 1e-10);
    assert!((m.get(0, 1) - 0.0).abs() < 1e-10);
}

#[test]
fn test_matrix_transpose() {
    let m: Matrix<f64> = Matrix::from_row_slice(2, 3, &[1.0, 2.0, 3.0, 4.0, 5.0, 6.0]);
    let t = m.transpose();
    assert_eq!(t.rows, 3);
    assert_eq!(t.cols, 2);
    assert!((t.get(0, 0) - 1.0).abs() < 1e-10);
    assert!((t.get(1, 0) - 2.0).abs() < 1e-10);
    assert!((t.get(0, 1) - 4.0).abs() < 1e-10);
}

// ---- Errors, one input for each variant that the library reports ----

#[test]
fn error_empty_sheaf_from_dims() {
    let r = CellularSheaf::<f64>::new(vec![]);
    assert_eq!(r.unwrap_err(), SheafError::EmptySheaf);
}

#[test]
fn error_zero_dimension_in_list() {
    let r = CellularSheaf::<f64>::new(vec![2, 0, 1]);
    assert_eq!(r.unwrap_err(), SheafError::InvalidStalkDimension(0));
}

#[test]
fn error_uniform_variants() {
    assert_eq!(
        CellularSheaf::<f64>::new_uniform(0, 3).unwrap_err(),
        SheafError::EmptySheaf
    );
    assert_eq!(
        CellularSheaf::<f64>::new_uniform(3, 0).unwrap_err(),
        SheafError::InvalidStalkDimension(0)
    );
}

#[test]
fn error_node_not_found_source_checked_first() {
    let mut sheaf = uniform(3, 2);
    assert_eq!(
        sheaf.add_edge(7, 9, 0.0, 1.0).unwrap_err(),
        SheafError::NodeNotFound(7)
    );
    assert_eq!(
        sheaf.add_edge(1, 9, 0.0, 1.0).unwrap_err(),
        SheafError::NodeNotFound(9)
    );
    assert_eq!(sheaf.num_edges(), 0);
}

#[test]
fn error_invalid_restriction_map_fields() {
    let mut sheaf: CellularSheaf<f64> = CellularSheaf::new(vec![2, 3]).unwrap();
    let map = Matrix::zeros(2, 3, 0.0);
    assert_eq!(
        sheaf.add_edge_with_map(0, 1, map).unwrap_err(),
        SheafError::InvalidRestrictionMap {
            rows: 2,
            cols: 3,
            expected_rows: 3,
            expected_cols: 2
        }
    );
    assert_eq!(sheaf.num_edges(), 0);
}

#[test]
fn error_dimension_mismatch_leaves_cochain() {
    let sheaf = uniform(3, 2);
    let mut cochain = vec![1.0, 2.0, 3.0, 4.0, 5.0, 6.0];
    let r = sheaf.set_stalk(2, &mut cochain, &[9.0]);
    assert_eq!(
        r.unwrap_err(),
        SheafError::DimensionMismatch {
            expected: 2,
            actual: 1
        }
    );
    assert_eq!(cochain, vec![1.0, 2.0, 3.0, 4.0, 5.0, 6.0]);
}

#[test]
fn error_validate_reports_first_bad_edge() {
    let mut sheaf = uniform(3, 2);
    sheaf.add_edge(0, 1, 0.0, 1.0).unwrap();
    sheaf.add_edge(1, 2, 0.0, 1.0).unwrap();
    sheaf.add_edge(2, 0, 0.0, 1.0).unwrap();
    sheaf.edges[1].restriction_map = Matrix::zeros(1, 2, 0.0);
    sheaf.edges[2].restriction_map = Matrix::zeros(3, 3, 0.0);
    assert_eq!(
        sheaf.validate().unwrap_err(),
        SheafError::InvalidRestrictionMap {
            rows: 1,
            cols: 2,
            expected_rows: 2,
            expected_cols: 2
        }
    );
}

// ---- Laws on concrete values ----

#[test]
fn stalk_write_then_read_and_others_kept() {
    let sheaf: CellularSheaf<i32> = CellularSheaf::new(vec![1, 3, 2]).unwrap();
    let mut cochain = vec![10, 20, 30, 40, 50, 60];
    sheaf.set_stalk(1, &mut cochain, &[7, 8, 9]).unwrap();
    assert_eq!(cochain, vec![10, 7, 8, 9, 50, 60]);
    assert_eq!(sheaf.extract_stalk(1, &cochain), vec![7, 8, 9]);
    assert_eq!(sheaf.extract_stalk(0, &cochain), vec![10]);
    assert_eq!(sheaf.extract_stalk(2, &cochain), vec![50, 60]);
}

#[test]
fn stalks_tile_the_cochain() {
    let sheaf: CellularSheaf<f64> = CellularSheaf::new(vec![2, 3, 4]).unwrap();
    let mut end = 0;
    for node in 0..3 {
        assert_eq!(sheaf.node_offset(node), end);
        end += sheaf.stalk_dims[node];
    }
    assert_eq!(sheaf.node_offset(3), sheaf.total_dim);
}

#[test]
fn added_edge_is_found_and_latest_wins() {
    let mut sheaf = uniform(2, 1);
    sheaf
        .add_edge_with_map(0, 1, Matrix::from_row_slice(1, 1, &[2.0]))
        .unwrap();
    sheaf
        .add_edge_with_map(0, 1, Matrix::from_row_slice(1, 1, &[5.0]))
        .unwrap();
    assert!(sheaf.has_edge(0, 1));
    assert!(!sheaf.has_edge(1, 0));
    assert_eq!(sheaf.restriction_map(0, 1).unwrap().get(0, 0), 5.0);
    assert!(sheaf.restriction_map(1, 0).is_none());
    assert_eq!(sheaf.num_edges(), 2);
}

#[test]
fn built_sheaf_validates() {
    let mut sheaf: CellularSheaf<f64> = CellularSheaf::new(vec![1, 2, 3]).unwrap();
    sheaf.add_edge(0, 1, 0.0, 1.0).unwrap();
    sheaf.add_edge(2, 1, 0.0, 1.0).unwrap();
    sheaf.add_edge(2, 2, 0.0, 1.0).unwrap();
    assert_eq!(sheaf.validate(), Ok(()));
}

#[test]
fn neighbors_match_edges() {
    let mut sheaf = uniform(4, 1);
    sheaf.add_edge(2, 3, 0.0, 1.0).unwrap();
    sheaf.add_edge(0, 3, 0.0, 1.0).unwrap();
    sheaf.add_edge(2, 0, 0.0, 1.0).unwrap();
    sheaf.add_edge(2, 3, 0.0, 1.0).unwrap();
    assert_eq!(sheaf.neighbors(2), vec![3, 0, 3]);
    assert_eq!(sheaf.neighbors(1), Vec::<usize>::new());
    for t in 0..4 {
        assert_eq!(sheaf.neighbors(2).contains(&t), sheaf.has_edge(2, t));
    }
}

#[test]
fn add_edge_between_different_dims_is_zero_map() {
    let mut sheaf: CellularSheaf<f64> = CellularSheaf::new(vec![2, 3]).unwrap();
    sheaf.add_edge(0, 1, 0.0, 1.0).unwrap();
    let m = sheaf.restriction_map(0, 1).unwrap();
    assert_eq!(m.rows, 3);
    assert_eq!(m.cols, 2);
    assert_eq!(m.data, vec![0.0; 6]);
}

#[test]
fn add_edge_between_equal_dims_is_identity() {
    let mut sheaf = uniform(2, 2);
    sheaf.add_edge(1, 0, 0.0, 1.0).unwrap();
    let m = sheaf.restriction_map(1, 0).unwrap();
    assert_eq!(m.data, vec![1.0, 0.0, 0.0, 1.0]);
}

#[test]
fn coboundary_layout_of_two_nodes() {
    let mut sheaf = uniform(2, 2);
    sheaf.add_edge(0, 1, 0.0, 1.0).unwrap();
    let layout = sheaf.coboundary_layout();
    assert_eq!(layout.rows, 2);
    assert_eq!(layout.cols, 4);
    assert_eq!(layout.blocks.len(), 1);
    let b = layout.blocks[0];
    assert_eq!(b.row_offset, 0);
    assert_eq!(b.rows, 2);
    assert_eq!(b.cols, 2);
    assert_eq!(b.source_offset, 0);
    assert_eq!(b.target_offset, 2);
}

#[test]
fn coboundary_layout_blocks_are_consecutive() {
    let mut sheaf: CellularSheaf<f64> = CellularSheaf::new(vec![1, 2, 3]).unwrap();
    sheaf.add_edge(0, 2, 0.0, 1.0).unwrap();
    sheaf.add_edge(2, 1, 0.0, 1.0).unwrap();
    sheaf.add_edge(1, 0, 0.0, 1.0).unwrap();
    let layout = sheaf.coboundary_layout();
    assert_eq!(layout.rows, 3 + 2 + 1);
    assert_eq!(layout.cols, 6);
    let offsets: Vec<usize> = layout.blocks.iter().map(|b| b.row_offset).collect();
    assert_eq!(offsets, vec![0, 3, 5]);
    assert_eq!(layout.blocks[1].source_offset, 3);
    assert_eq!(layout.blocks[1].target_offset, 1);
    assert_eq!(layout.blocks[1].cols, 3);
}

#[test]
fn matrix_transpose_twice_is_identity() {
    let m = Matrix::from_row_slice(2, 3, &[1, 2, 3, 4, 5, 6]);
    let t = m.transpose();
    assert_eq!(t.data, vec![1, 4, 2, 5, 3, 6]);
    assert_eq!(t.transpose(), m);
}

#[test]
fn matrix_zeros_get_set_column() {
    let mut m = Matrix::zeros(2, 3, 0);
    assert_eq!(m.data, vec![0; 6]);
    m.set(1, 2, 7);
    m.set(0, 2, 4);
    assert_eq!(m.get(1, 2), 7);
    assert_eq!(m.data, vec![0, 0, 4, 0, 0, 7]);
    assert_eq!(m.column(2), vec![4, 7]);
    assert_eq!(m.column(0), vec![0, 0]);
}

#[test]
fn matrix_identity_entries() {
    let m = Matrix::identity(3, 0u8, 1u8);
    assert_eq!(m.data, vec![1, 0, 0, 0, 1, 0, 0, 0, 1]);
}
