use vstd::prelude::*;
use crate::point::seq1_ok;
use crate::warp::cost_mat1;
use crate::warp::dtw1_cost;
use crate::warp::mat_int;
use crate::warp::warp;
use crate::warp::build_cost1;
use crate::warp::build_warp;
use crate::warp::lemma_cost_mat1_ok;
use crate::path::wm_wf;
use crate::path::warp_full;
use crate::path::path_of;
use crate::path::path_matches;
use crate::path::build_path;
use crate::path::lemma_warp_full_wf;
use crate::path::lemma_path_props;
use crate::GrError;
use crate::LEN_LIMIT;

verus! {

/// Anything that has computed a dynamic-time-warping alignment and can
/// hand out its total cost.
pub trait DTW {
    /// The total warping cost this aligner computed.
    spec fn spec_cost(&self) -> u64;

    /// Returns the total warping cost.
    fn get_cost(&self) -> (r: u64)
        ensures
            r == self.spec_cost(),
    ;
}

/// A completed dynamic-time-warping alignment of two scalar sequences:
/// the cost matrix, the warping matrix, the optimal alignment path and the
/// total cost, all built once by `new`.
pub struct DTW1D {
    seq1: Vec<i64>,
    seq2: Vec<i64>,
    cost_matrix: Vec<Vec<u64>>,
    dtw_matrix: Vec<Vec<u64>>,
    dtw_path: Vec<(usize, usize)>,
    dtw_cost: u64,
    norm_den: u64,
}

impl DTW1D {
    pub closed spec fn spec_seq1(self) -> Seq<i64> {
        self.seq1@
    }

    pub closed spec fn spec_seq2(self) -> Seq<i64> {
        self.seq2@
    }

    pub closed spec fn spec_path(self) -> Seq<(usize, usize)> {
        self.dtw_path@
    }

    pub closed spec fn spec_norm_den(self) -> u64 {
        self.norm_den
    }

    /// The alignment is internally consistent: sequences non-empty, within
    /// bounds, and cost, matrix and path are the ones the two sequences
    /// determine.
    pub closed spec fn wf(self) -> bool {
        &&& 1 <= self.seq1@.len() <= LEN_LIMIT
        &&& 1 <= self.seq2@.len() <= LEN_LIMIT
        &&& seq1_ok(self.seq1@)
        &&& seq1_ok(self.seq2@)
        &&& self.dtw_cost == dtw1_cost(self.seq1@, self.seq2@)
        &&& self.dtw_matrix.deep_view() == warp_full(
            cost_mat1(self.seq1@, self.seq2@),
            self.seq1@.len() as int,
            self.seq2@.len() as int,
        )
        &&& path_matches(
            self.dtw_path@,
            path_of(
                self.dtw_matrix.deep_view(),
                self.seq1@.len() as int,
                self.seq2@.len() as int,
            ),
        )
        &&& self.norm_den == (self.seq1@.len() + self.seq2@.len()) as int / 2
    }

    /// Aligns the two sequences: builds the cost matrix, the warping
    /// matrix and the optimal path. Rejects an empty sequence.
    pub fn new(seq1: Vec<i64>, seq2: Vec<i64>) -> (r: Result<DTW1D, GrError>)
        requires
            seq1_ok(seq1@),
            seq1_ok(seq2@),
            seq1@.len() <= LEN_LIMIT,
            seq2@.len() <= LEN_LIMIT,
        ensures
            r is Ok <==> (seq1@.len() >= 1 && seq2@.len() >= 1),
            r is Err ==> r == Result::<DTW1D, GrError>::Err(GrError::EmptySequence),
            r is Ok ==> ({
                let d = r->Ok_0;
                &&& d.wf()
                &&& d.spec_seq1() == seq1@
                &&& d.spec_seq2() == seq2@
                &&& d.spec_cost() == dtw1_cost(seq1@, seq2@)
                &&& d.spec_norm_den() == (seq1@.len() + seq2@.len()) as int / 2
                &&& path_matches(
                    d.spec_path(),
                    path_of(
                        warp_full(
                            cost_mat1(seq1@, seq2@),
                            seq1@.len() as int,
                            seq2@.len() as int,
                        ),
                        seq1@.len() as int,
                        seq2@.len() as int,
                    ),
                )
                &&& d.spec_path().len() >= 1
                &&& d.spec_path()[0] == ((1usize, 1usize))
                &&& d.spec_path().last() == ((seq1@.len() as usize, seq2@.len() as usize))
            }),
    {
        if seq1.len() == 0 || seq2.len() == 0 {
            return Err(GrError::EmptySequence);
        }
        let m = seq1.len();
        let n = seq2.len();
        let cost_matrix = build_cost1(&seq1, &seq2);
        let ghost cm = cost_mat1(seq1@, seq2@);
        proof {
            lemma_cost_mat1_ok(seq1@, seq2@);
            assert(mat_int(cost_matrix.deep_view()) =~~= cm);
        }
        let dtw_matrix = build_warp(&cost_matrix);
        proof {
            lemma_warp_full_wf(cm, m as int, n as int);
            assert forall|i: int, j: int| 0 <= i <= m && 0 <= j <= n implies dtw_matrix.deep_view()[i][j]
                == warp_full(cm, m as int, n as int)[i][j] by {
                if i >= 1 && j >= 1 {
                    assert(dtw_matrix@[i][j] == warp(cm, i, j));
                    assert(warp_full(cm, m as int, n as int)[i][j] == warp(cm, i, j) as u64);
                }
            }
            assert(dtw_matrix.deep_view() =~~= warp_full(cm, m as int, n as int));
            assert(wm_wf(dtw_matrix.deep_view(), m as int, n as int));
        }
        let dtw_path = build_path(&dtw_matrix, m, n);
        proof {
            lemma_path_props(dtw_matrix.deep_view(), m as int, n as int, m as int, n as int);
        }
        let dtw_cost = dtw_matrix[m][n];
        let norm_den = ((m + n) / 2) as u64;
        Ok(DTW1D { seq1, seq2, cost_matrix, dtw_matrix, dtw_path, dtw_cost, norm_den })
    }

    /// Returns the optimal alignment path, ordered from (1, 1) to
    /// (|seq1|, |seq2|) in warping-matrix coordinates.
    pub fn alignment_path(&self) -> (r: &Vec<(usize, usize)>)
        ensures
            r@ == self.spec_path(),
    {
        &self.dtw_path
    }

    /// Returns the total cost together with the divisor used for
    /// normalisation, floor((|seq1| + |seq2|) / 2): the normalised cost is
    /// their quotient.
    pub fn get_normalized_cost(&self) -> (r: (u64, u64))
        ensures
            r.0 == self.spec_cost(),
            r.1 == self.spec_norm_den(),
    {
        (self.dtw_cost, self.norm_den)
    }
}

impl DTW for DTW1D {
    closed spec fn spec_cost(&self) -> u64 {
        self.dtw_cost
    }

    fn get_cost(&self) -> (r: u64) {
        self.dtw_cost
    }
}

} // verus!
