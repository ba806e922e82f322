use vstd::prelude::*;
use crate::point::Pt3;
use crate::point::seq3_ok;
use crate::point::mid3;
use crate::point::mid3_exec;
use crate::warp::cost_mat3;
use crate::warp::dtw3_cost;
use crate::warp::mat_int;
use crate::warp::warp;
use crate::warp::build_cost3;
use crate::warp::build_warp;
use crate::warp::lemma_cost_mat3_ok;
use crate::path::wm_wf;
use crate::path::warp_full;
use crate::path::path_of;
use crate::path::path_matches;
use crate::path::build_path;
use crate::path::lemma_warp_full_wf;
use crate::path::lemma_path_props;
use crate::dtw::DTW;
use crate::GrError;
use crate::LEN_LIMIT;

verus! {

/// The averaged sequence an alignment path induces: each path cell (x, y)
/// becomes the point halfway between sample x of the first sequence and
/// sample y of the second (path cells are 1-based warping-matrix
/// coordinates).
pub open spec fn aligned_of(s1: Seq<Pt3>, s2: Seq<Pt3>, p: Seq<(usize, usize)>) -> Seq<Pt3> {
    Seq::new(p.len(), |k: int| mid3(s1[p[k].0 - 1], s2[p[k].1 - 1]))
}

/// A completed dynamic-time-warping alignment of two 3-D sequences,
/// together with the averaged sequence its alignment path induces.
pub struct DTW3D {
    seq1: Vec<Pt3>,
    seq2: Vec<Pt3>,
    cost_matrix: Vec<Vec<u64>>,
    dtw_matrix: Vec<Vec<u64>>,
    dtw_path: Vec<(usize, usize)>,
    aligned_sequence: Vec<Pt3>,
    dtw_cost: u64,
    norm_den: u64,
}

impl DTW3D {
    pub closed spec fn spec_seq1(self) -> Seq<Pt3> {
        self.seq1@
    }

    pub closed spec fn spec_seq2(self) -> Seq<Pt3> {
        self.seq2@
    }

    pub closed spec fn spec_path(self) -> Seq<(usize, usize)> {
        self.dtw_path@
    }

    pub closed spec fn spec_aligned(self) -> Seq<Pt3> {
        self.aligned_sequence@
    }

    pub closed spec fn spec_norm_den(self) -> u64 {
        self.norm_den
    }

    /// The alignment is internally consistent: sequences non-empty, within
    /// bounds, and cost, matrix and path are the ones the two sequences
    /// determine. The averaged sequence is deliberately not constrained
    /// here: consuming it leaves the rest of the alignment intact.
    pub closed spec fn wf(self) -> bool {
        &&& 1 <= self.seq1@.len() <= LEN_LIMIT
        &&& 1 <= self.seq2@.len() <= LEN_LIMIT
        &&& seq3_ok(self.seq1@)
        &&& seq3_ok(self.seq2@)
        &&& self.dtw_cost == dtw3_cost(self.seq1@, self.seq2@)
        &&& self.dtw_matrix.deep_view() == warp_full(
            cost_mat3(self.seq1@, self.seq2@),
            self.seq1@.len() as int,
            self.seq2@.len() as int,
        )
        &&& path_matches(
            self.dtw_path@,
            path_of(
                self.dtw_matrix.deep_view(),
                self.seq1@.len() as int,
                self.seq2@.len() as int,
            ),
        )
        &&& self.norm_den == (self.seq1@.len() + self.seq2@.len()) as int / 2
    }

    /// Every path cell indexes real samples of both sequences.
    #[verifier::rlimit(60)]
    proof fn lemma_path_in_range(self)
        requires
            self.wf(),
        ensures
            forall|k: int|
                0 <= k < self.spec_path().len() ==> 1 <= (#[trigger] self.spec_path()[k]).0
                    <= self.spec_seq1().len() && 1 <= self.spec_path()[k].1
                    <= self.spec_seq2().len(),
    {
        let m = self.seq1@.len() as int;
        let n = self.seq2@.len() as int;
        lemma_cost_mat3_ok(self.seq1@, self.seq2@);
        lemma_warp_full_wf(cost_mat3(self.seq1@, self.seq2@), m, n);
        lemma_path_props(self.dtw_matrix.deep_view(), m, n, m, n);
        let q = path_of(self.dtw_matrix.deep_view(), m, n);
        let p = self.spec_path();
        assert forall|k: int| 0 <= k < p.len() implies 1 <= (#[trigger] p[k]).0 <= m && 1
            <= p[k].1 <= n by {
            assert(q[k] == ((p[k].0 as int, p[k].1 as int)));
        }
    }

    /// Aligns the two sequences: builds the cost matrix, the warping
    /// matrix, the optimal path and the averaged sequence. Rejects an
    /// empty sequence.
    #[verifier::rlimit(100)]
    pub fn new(seq1: Vec<Pt3>, seq2: Vec<Pt3>) -> (r: Result<DTW3D, GrError>)
        requires
            seq3_ok(seq1@),
            seq3_ok(seq2@),
            seq1@.len() <= LEN_LIMIT,
            seq2@.len() <= LEN_LIMIT,
        ensures
            r is Ok <==> (seq1@.len() >= 1 && seq2@.len() >= 1),
            r is Err ==> r == Result::<DTW3D, GrError>::Err(GrError::EmptySequence),
            r is Ok ==> ({
                let d = r->Ok_0;
                &&& d.wf()
                &&& d.spec_seq1() == seq1@
                &&& d.spec_seq2() == seq2@
                &&& d.spec_cost() == dtw3_cost(seq1@, seq2@)
                &&& d.spec_norm_den() == (seq1@.len() + seq2@.len()) as int / 2
                &&& path_matches(
                    d.spec_path(),
                    path_of(
                        warp_full(
                            cost_mat3(seq1@, seq2@),
                            seq1@.len() as int,
                            seq2@.len() as int,
                        ),
                        seq1@.len() as int,
                        seq2@.len() as int,
                    ),
                )
                &&& d.spec_path().len() >= 1
                &&& d.spec_path()[0] == ((1usize, 1usize))
                &&& d.spec_path().last() == ((seq1@.len() as usize, seq2@.len() as usize))
                &&& d.spec_aligned() == aligned_of(seq1@, seq2@, d.spec_path())
                &&& d.spec_aligned().len() == d.spec_path().len()
            }),
    {
        if seq1.len() == 0 || seq2.len() == 0 {
            return Err(GrError::EmptySequence);
        }
        let m = seq1.len();
        let n = seq2.len();
        let cost_matrix = build_cost3(&seq1, &seq2);
        let ghost cm = cost_mat3(seq1@, seq2@);
        proof {
            lemma_cost_mat3_ok(seq1@, seq2@);
            assert(mat_int(cost_matrix.deep_view()) =~~= cm);
        }
        let dtw_matrix = build_warp(&cost_matrix);
        proof {
            lemma_warp_full_wf(cm, m as int, n as int);
            assert forall|i: int, j: int| 0 <= i <= m && 0 <= j <= n implies dtw_matrix.deep_view()[i][j]
                == warp_full(cm, m as int, n as int)[i][j] by {
                if i >= 1 && j >= 1 {
                    assert(dtw_matrix@[i][j] == warp(cm, i, j));
                    assert(warp_full(cm, m as int, n as int)[i][j] == warp(cm, i, j) as u64);
                }
            }
            assert(dtw_matrix.deep_view() =~~= warp_full(cm, m as int, n as int));
            assert(wm_wf(dtw_matrix.deep_view(), m as int, n as int));
        }
        let dtw_path = build_path(&dtw_matrix, m, n);
        proof {
            lemma_path_props(dtw_matrix.deep_view(), m as int, n as int, m as int, n as int);
            let q = path_of(dtw_matrix.deep_view(), m as int, n as int);
            assert forall|k: int| 0 <= k < dtw_path@.len() implies 1 <= (#[trigger] dtw_path@[k]).0
                <= m && 1 <= dtw_path@[k].1 <= n by {
                assert(q[k] == ((dtw_path@[k].0 as int, dtw_path@[k].1 as int)));
            }
        }
        let aligned_sequence = compute_aligned(&seq1, &seq2, &dtw_path);
        let dtw_cost = dtw_matrix[m][n];
        let norm_den = ((m + n) / 2) as u64;
        Ok(
            DTW3D {
                seq1,
                seq2,
                cost_matrix,
                dtw_matrix,
                dtw_path,
                aligned_sequence,
                dtw_cost,
                norm_den,
            },
        )
    }

    /// Recomputes the averaged sequence from the alignment path, e.g.
    /// after the previous one was consumed.
    pub fn produce_aligned_sequence(&mut self)
        requires
            old(self).wf(),
        ensures
            final(self).wf(),
            final(self).spec_seq1() == old(self).spec_seq1(),
            final(self).spec_seq2() == old(self).spec_seq2(),
            final(self).spec_path() == old(self).spec_path(),
            final(self).spec_cost() == old(self).spec_cost(),
            final(self).spec_norm_den() == old(self).spec_norm_den(),
            final(self).spec_aligned() == aligned_of(
                old(self).spec_seq1(),
                old(self).spec_seq2(),
                old(self).spec_path(),
            ),
            final(self).spec_aligned().len() == old(self).spec_path().len(),
    {
        proof {
            old(self).lemma_path_in_range();
            assert forall|k: int| 0 <= k < self.dtw_path@.len() implies 1 <= (
            #[trigger] self.dtw_path@[k]).0 <= self.seq1@.len() && 1 <= self.dtw_path@[k].1
                <= self.seq2@.len() by {
                assert(old(self).spec_path()[k] == self.dtw_path@[k]);
            }
        }
        let a = compute_aligned(&self.seq1, &self.seq2, &self.dtw_path);
        self.aligned_sequence = a;
    }

    /// Moves the averaged sequence out, leaving an empty one behind; to
    /// get another one, re-run `produce_aligned_sequence`.
    pub fn consume_aligned_sequence(&mut self) -> (r: Vec<Pt3>)
        ensures
            r@ == old(self).spec_aligned(),
            final(self).spec_aligned().len() == 0,
            final(self).spec_seq1() == old(self).spec_seq1(),
            final(self).spec_seq2() == old(self).spec_seq2(),
            final(self).spec_path() == old(self).spec_path(),
            final(self).spec_cost() == old(self).spec_cost(),
            final(self).spec_norm_den() == old(self).spec_norm_den(),
            old(self).wf() ==> final(self).wf(),
    {
        let mut tmp: Vec<Pt3> = Vec::new();
        core::mem::swap(&mut self.aligned_sequence, &mut tmp);
        tmp
    }

    /// Returns the optimal alignment path, ordered from (1, 1) to
    /// (|seq1|, |seq2|) in warping-matrix coordinates.
    pub fn alignment_path(&self) -> (r: &Vec<(usize, usize)>)
        ensures
            r@ == self.spec_path(),
    {
        &self.dtw_path
    }

    /// Returns the total cost together with the divisor used for
    /// normalisation, floor((|seq1| + |seq2|) / 2): the normalised cost is
    /// their quotient.
    pub fn get_normalized_cost(&self) -> (r: (u64, u64))
        ensures
            r.0 == self.spec_cost(),
            r.1 == self.spec_norm_den(),
    {
        (self.dtw_cost, self.norm_den)
    }
}

impl DTW for DTW3D {
    closed spec fn spec_cost(&self) -> u64 {
        self.dtw_cost
    }

    fn get_cost(&self) -> (r: u64) {
        self.dtw_cost
    }
}

/// Maps every cell of an alignment path to the point halfway between the
/// two samples it matches.
#[verifier::loop_isolation(false)]
fn compute_aligned(s1: &Vec<Pt3>, s2: &Vec<Pt3>, p: &Vec<(usize, usize)>) -> (r: Vec<Pt3>)
    requires
        seq3_ok(s1@),
        seq3_ok(s2@),
        forall|k: int|
            0 <= k < p@.len() ==> 1 <= (#[trigger] p@[k]).0 <= s1@.len() && 1 <= p@[k].1
                <= s2@.len(),
    ensures
        r@ == aligned_of(s1@, s2@, p@),
{
    let mut r: Vec<Pt3> = Vec::new();
    let mut k: usize = 0;
    while k < p.len()
        invariant
            k <= p@.len(),
            r@.len() == k,
            forall|t: int| 0 <= t < k ==> #[trigger] r@[t] == aligned_of(s1@, s2@, p@)[t],
        decreases p@.len() - k,
    {
        let cell = p[k];
        r.push(mid3_exec(&s1[cell.0 - 1], &s2[cell.1 - 1]));
        k += 1;
    }
    proof {
        assert(r@ =~= aligned_of(s1@, s2@, p@));
    }
    r
}

} // verus!
