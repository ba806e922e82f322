use gesture_dtw::dtw::DTW;
use gesture_dtw::dtw::DTW1D;
use gesture_dtw::dtw3d::DTW3D;
use gesture_dtw::point::Pt3;
use gesture_dtw::warp::build_cost1;
use gesture_dtw::warp::build_cost3;
use gesture_dtw::GrError;

fn pt(x: i64, y: i64, z: i64) -> Pt3 {
    Pt3 { x, y, z }
}

#[test]
fn self_alignment_scalar_costs_zero() {
    let s = vec![3i64, 1, 4, 1, 5, 9, 2, 6];
    let d = DTW1D::new(s.clone(), s).unwrap();
    assert_eq!(d.get_cost(), 0);
}

#[test]
fn self_alignment_3d_costs_zero() {
    let s = vec![pt(1, 2, 3), pt(-4, 5, -6), pt(7, -8, 9)];
    let d = DTW3D::new(s.clone(), s).unwrap();
    assert_eq!(d.get_cost(), 0);
}

#[test]
fn cost_is_non_negative_and_exact() {
    // By hand: cost matrix [[7, 4], [2, 9], [5, 16]], warping matrix rows
    // [7, 11], [9, 16], [14, 25].
    let a = vec![-5i64, 0, 7];
    let b = vec![2i64, -9];
    let d = DTW1D::new(a, b).unwrap();
    assert_eq!(d.get_cost(), 25);
}

#[test]
fn cost_is_symmetric_scalar() {
    let a = vec![1i64, 3, 2, 8, 5];
    let b = vec![2i64, 2, 7];
    let ab = DTW1D::new(a.clone(), b.clone()).unwrap();
    let ba = DTW1D::new(b, a).unwrap();
    assert_eq!(ab.get_cost(), ba.get_cost());
}

#[test]
fn cost_is_symmetric_3d() {
    let a = vec![pt(0, 0, 0), pt(3, 1, -2), pt(5, 5, 5)];
    let b = vec![pt(1, 1, 1), pt(4, 0, -1)];
    let ab = DTW3D::new(a.clone(), b.clone()).unwrap();
    let ba = DTW3D::new(b, a).unwrap();
    assert_eq!(ab.get_cost(), ba.get_cost());
}

#[test]
fn path_starts_at_origin_and_ends_at_corner() {
    let a = vec![1i64, 5, 2, 9, 3, 3, 7];
    let b = vec![4i64, 4, 1, 8];
    let d = DTW1D::new(a.clone(), b.clone()).unwrap();
    let p = d.alignment_path();
    assert!(p.len() >= 1);
    assert_eq!(p[0], (1, 1));
    assert_eq!(p[p.len() - 1], (a.len(), b.len()));
    for w in p.windows(2) {
        let (x0, y0) = w[0];
        let (x1, y1) = w[1];
        let dx = x1 - x0;
        let dy = y1 - y0;
        assert!(dx <= 1 && dy <= 1);
        assert!(dx + dy >= 1);
    }
}

#[test]
fn end_to_end_example() {
    // seq1 = [1, 2, 3], seq2 = [2, 2, 3, 4]; by hand the warping matrix is
    //   1 2 4 7
    //   1 1 2 4
    //   2 2 1 2
    // so the total cost is 2 and backtracking with the up > left > diagonal
    // tie-break yields the path below.
    let d = DTW1D::new(vec![1, 2, 3], vec![2, 2, 3, 4]).unwrap();
    assert_eq!(d.get_cost(), 2);
    assert_eq!(d.alignment_path().as_slice(), &[(1, 1), (2, 1), (2, 2), (3, 3), (3, 4)]);
    let (num, den) = d.get_normalized_cost();
    assert_eq!(num, 2);
    assert_eq!(den, 3);
    let normalized = num as f64 / den as f64;
    assert!((normalized - 2.0 / 3.0).abs() < 1e-12);
}

#[test]
fn normalized_cost_uses_floored_average_length() {
    // |A| = 2, |B| = 3: divisor floor(5 / 2) = 2.
    let d = DTW1D::new(vec![0, 0], vec![1, 1, 1]).unwrap();
    let (num, den) = d.get_normalized_cost();
    assert_eq!(den, 2);
    assert_eq!(num, 3);
}

#[test]
fn aligned_sequence_length_equals_path_length() {
    let a = vec![pt(0, 0, 0), pt(2, 2, 2), pt(4, 4, 4), pt(8, 8, 8)];
    let b = vec![pt(1, 1, 1), pt(5, 5, 5)];
    let mut d = DTW3D::new(a, b).unwrap();
    let path_len = d.alignment_path().len();
    let aligned = d.consume_aligned_sequence();
    assert_eq!(aligned.len(), path_len);
}

#[test]
fn aligned_sequence_averages_matched_points() {
    // Equal-length, zero-cost alignment: the path is the diagonal and each
    // aligned point is the half-sum, rounded toward zero.
    let a = vec![pt(1, -1, 3), pt(10, 10, 10)];
    let b = vec![pt(2, -2, 3), pt(10, 10, 10)];
    let mut d = DTW3D::new(a, b).unwrap();
    let aligned = d.consume_aligned_sequence();
    assert_eq!(aligned.len(), 2);
    assert_eq!(aligned[0], pt(1, -1, 3));
    assert_eq!(aligned[1], pt(10, 10, 10));
}

#[test]
fn consume_empties_and_produce_refills() {
    let a = vec![pt(0, 0, 0), pt(2, 0, 0)];
    let b = vec![pt(0, 0, 0), pt(2, 0, 0), pt(4, 0, 0)];
    let mut d = DTW3D::new(a, b).unwrap();
    let first = d.consume_aligned_sequence();
    assert!(first.len() >= 1);
    let emptied = d.consume_aligned_sequence();
    assert_eq!(emptied.len(), 0);
    d.produce_aligned_sequence();
    let again = d.consume_aligned_sequence();
    assert_eq!(again, first);
}

#[test]
fn cost_matrix_holds_absolute_differences() {
    let c = build_cost1(&vec![1, 2, 3], &vec![2, 2, 3, 4]);
    assert_eq!(c[0], vec![1, 1, 2, 3]);
    assert_eq!(c[1], vec![0, 0, 1, 2]);
    assert_eq!(c[2], vec![1, 1, 0, 1]);
}

#[test]
fn cost_matrix_3d_holds_squared_euclidean_distances() {
    let c = build_cost3(&vec![pt(0, 0, 0)], &vec![pt(1, 2, 2), pt(-3, 0, 4)]);
    assert_eq!(c[0], vec![9, 25]);
}

#[test]
fn empty_sequence_is_rejected() {
    assert!(matches!(DTW1D::new(vec![], vec![1, 2]), Err(GrError::EmptySequence)));
    assert!(matches!(DTW1D::new(vec![1, 2], vec![]), Err(GrError::EmptySequence)));
    assert!(matches!(DTW3D::new(vec![], vec![pt(0, 0, 0)]), Err(GrError::EmptySequence)));
    assert!(matches!(DTW3D::new(vec![pt(0, 0, 0)], vec![]), Err(GrError::EmptySequence)));
}
