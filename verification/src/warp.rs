use vstd::prelude::*;
use crate::point::Pt3;
use crate::point::dist1;
use crate::point::dist3;
use crate::point::dist1_exec;
use crate::point::dist3_exec;
use crate::point::lemma_dist1_bounds;
use crate::point::lemma_dist3_bounds;
use crate::point::seq1_ok;
use crate::point::seq3_ok;
use crate::LEN_LIMIT;
use crate::MAX_CELL;
use crate::INF;

verus! {

/// The pairwise cost matrix of two scalar sequences: cell (i, j) is the
/// distance between the i-th sample of the first and the j-th of the second.
pub open spec fn cost_mat1(s1: Seq<i64>, s2: Seq<i64>) -> Seq<Seq<int>> {
    Seq::new(s1.len(), |i: int| Seq::new(s2.len(), |j: int| dist1(s1[i] as int, s2[j] as int)))
}

/// The pairwise cost matrix of two 3-D sequences.
pub open spec fn cost_mat3(s1: Seq<Pt3>, s2: Seq<Pt3>) -> Seq<Seq<int>> {
    Seq::new(s1.len(), |i: int| Seq::new(s2.len(), |j: int| dist3(s1[i], s2[j])))
}

/// The cost matrix is rectangular with at least one row and one column.
pub open spec fn mat_dims(c: Seq<Seq<int>>) -> bool {
    &&& c.len() >= 1
    &&& c[0].len() >= 1
    &&& forall|i: int| 0 <= i < c.len() ==> (#[trigger] c[i]).len() == c[0].len()
}

/// Every cell of the cost matrix is non-negative.
pub open spec fn mat_nonneg(c: Seq<Seq<int>>) -> bool {
    forall|i: int, j: int|
        0 <= i < c.len() && 0 <= j < c[i].len() ==> #[trigger] c[i][j] >= 0
}

/// Every cell of the cost matrix is at most `MAX_CELL`.
pub open spec fn mat_cells_bounded(c: Seq<Seq<int>>) -> bool {
    forall|i: int, j: int|
        0 <= i < c.len() && 0 <= j < c[i].len() ==> #[trigger] c[i][j] <= MAX_CELL
}

pub open spec fn min3(a: int, b: int, c: int) -> int {
    if a <= b && a <= c {
        a
    } else if b <= c {
        b
    } else {
        c
    }
}

/// Minimal accumulated warping cost of aligning the first i samples of one
/// sequence with the first j samples of the other, for a cost matrix c:
/// the value of cell (i, j) of the warping matrix, 1 <= i, 1 <= j. Cells in
/// row 1 and column 1 can only extend along that row or column, matching a
/// warping matrix whose row 0 and column 0 are unreachable sentinels.
pub open spec fn warp(c: Seq<Seq<int>>, i: int, j: int) -> int
    recommends
        mat_dims(c),
        1 <= i <= c.len(),
        1 <= j <= c[0].len(),
    decreases i + j,
{
    if i + j <= 2 {
        c[0][0]
    } else if i <= 1 {
        warp(c, i, j - 1) + c[0][j - 1]
    } else if j <= 1 {
        warp(c, i - 1, j) + c[i - 1][0]
    } else {
        c[i - 1][j - 1] + min3(warp(c, i - 1, j), warp(c, i, j - 1), warp(c, i - 1, j - 1))
    }
}

/// The total warping cost of two scalar sequences.
pub open spec fn dtw1_cost(s1: Seq<i64>, s2: Seq<i64>) -> int {
    warp(cost_mat1(s1, s2), s1.len() as int, s2.len() as int)
}

/// The total warping cost of two 3-D sequences.
pub open spec fn dtw3_cost(s1: Seq<Pt3>, s2: Seq<Pt3>) -> int {
    warp(cost_mat3(s1, s2), s1.len() as int, s2.len() as int)
}

/// An accumulated warping cost is non-negative whenever every cell of the
/// cost matrix is.
pub proof fn lemma_warp_nonneg(c: Seq<Seq<int>>, i: int, j: int)
    requires
        mat_dims(c),
        mat_nonneg(c),
        1 <= i <= c.len(),
        1 <= j <= c[0].len(),
    ensures
        warp(c, i, j) >= 0,
    decreases i + j,
{
    if i + j <= 2 {
    } else if i <= 1 {
        lemma_warp_nonneg(c, i, j - 1);
    } else if j <= 1 {
        lemma_warp_nonneg(c, i - 1, j);
    } else {
        lemma_warp_nonneg(c, i - 1, j);
        lemma_warp_nonneg(c, i, j - 1);
        lemma_warp_nonneg(c, i - 1, j - 1);
    }
}

/// An accumulated warping cost is at most one `MAX_CELL` per cell the
/// alignment visits, and an alignment of (i, j) visits at most i + j - 1.
pub proof fn lemma_warp_bound(c: Seq<Seq<int>>, i: int, j: int)
    requires
        mat_dims(c),
        mat_cells_bounded(c),
        1 <= i <= c.len(),
        1 <= j <= c[0].len(),
    ensures
        warp(c, i, j) <= (i + j - 1) * MAX_CELL,
    decreases i + j,
{
    if i + j <= 2 {
    } else if i <= 1 {
        lemma_warp_bound(c, i, j - 1);
    } else if j <= 1 {
        lemma_warp_bound(c, i - 1, j);
    } else {
        lemma_warp_bound(c, i - 1, j);
        lemma_warp_bound(c, i, j - 1);
        lemma_warp_bound(c, i - 1, j - 1);
    }
}

pub open spec fn transpose(c: Seq<Seq<int>>) -> Seq<Seq<int>> {
    Seq::new(c[0].len(), |j: int| Seq::new(c.len(), |i: int| c[i][j]))
}

/// Transposing the cost matrix transposes the warping matrix: the
/// accumulated cost is symmetric in the two sequences.
pub proof fn lemma_warp_transpose(c: Seq<Seq<int>>, i: int, j: int)
    requires
        mat_dims(c),
        1 <= i <= c.len(),
        1 <= j <= c[0].len(),
    ensures
        warp(transpose(c), j, i) == warp(c, i, j),
    decreases i + j,
{
    if i + j <= 2 {
    } else if i <= 1 {
        lemma_warp_transpose(c, i, j - 1);
    } else if j <= 1 {
        lemma_warp_transpose(c, i - 1, j);
    } else {
        lemma_warp_transpose(c, i - 1, j);
        lemma_warp_transpose(c, i, j - 1);
        lemma_warp_transpose(c, i - 1, j - 1);
    }
}

/// Aligning a sequence with itself costs nothing: along the diagonal every
/// cell is zero and the recurrence can always take the diagonal step.
pub proof fn lemma_warp_self(c: Seq<Seq<int>>, i: int)
    requires
        mat_dims(c),
        mat_nonneg(c),
        1 <= i <= c.len(),
        i <= c[0].len(),
        forall|k: int| 0 <= k < i ==> #[trigger] c[k][k] == 0,
    ensures
        warp(c, i, i) == 0,
    decreases i,
{
    if i > 1 {
        lemma_warp_self(c, i - 1);
        lemma_warp_nonneg(c, i - 1, i);
        lemma_warp_nonneg(c, i, i - 1);
    }
}

/// LAW (self-alignment, scalar): the total warping cost of any non-empty
/// scalar sequence against itself is zero.
pub proof fn lemma_self_alignment_1d(s: Seq<i64>)
    requires
        s.len() >= 1,
    ensures
        dtw1_cost(s, s) == 0,
{
    lemma_warp_self(cost_mat1(s, s), s.len() as int);
}

/// LAW (self-alignment, 3-D): the total warping cost of any non-empty 3-D
/// sequence against itself is zero.
pub proof fn lemma_self_alignment_3d(s: Seq<Pt3>)
    requires
        s.len() >= 1,
    ensures
        dtw3_cost(s, s) == 0,
{
    assert forall|k: int| 0 <= k < s.len() implies #[trigger] cost_mat3(s, s)[k][k] == 0 by {
        assert(dist3(s[k], s[k]) == 0) by (nonlinear_arith);
    }
    assert forall|i: int, j: int|
        0 <= i < cost_mat3(s, s).len() && 0 <= j < cost_mat3(s, s)[i].len()
        implies #[trigger] cost_mat3(s, s)[i][j] >= 0 by {
        lemma_dist3_unbounded_nonneg(s[i], s[j]);
    }
    lemma_warp_self(cost_mat3(s, s), s.len() as int);
}

/// The squared Euclidean distance is non-negative for any two points.
pub proof fn lemma_dist3_unbounded_nonneg(p: Pt3, q: Pt3)
    ensures
        dist3(p, q) >= 0,
{
    let dx = p.x - q.x;
    let dy = p.y - q.y;
    let dz = p.z - q.z;
    assert(dx * dx >= 0) by (nonlinear_arith);
    assert(dy * dy >= 0) by (nonlinear_arith);
    assert(dz * dz >= 0) by (nonlinear_arith);
}

/// LAW (non-negativity, scalar): a total warping cost is never negative.
pub proof fn lemma_nonneg_1d(s1: Seq<i64>, s2: Seq<i64>)
    requires
        s1.len() >= 1,
        s2.len() >= 1,
    ensures
        dtw1_cost(s1, s2) >= 0,
{
    lemma_warp_nonneg(cost_mat1(s1, s2), s1.len() as int, s2.len() as int);
}

/// LAW (non-negativity, 3-D): a total warping cost is never negative.
pub proof fn lemma_nonneg_3d(s1: Seq<Pt3>, s2: Seq<Pt3>)
    requires
        s1.len() >= 1,
        s2.len() >= 1,
    ensures
        dtw3_cost(s1, s2) >= 0,
{
    assert forall|i: int, j: int|
        0 <= i < cost_mat3(s1, s2).len() && 0 <= j < cost_mat3(s1, s2)[i].len()
        implies #[trigger] cost_mat3(s1, s2)[i][j] >= 0 by {
        lemma_dist3_unbounded_nonneg(s1[i], s2[j]);
    }
    lemma_warp_nonneg(cost_mat3(s1, s2), s1.len() as int, s2.len() as int);
}

/// LAW (symmetry, scalar): swapping the two sequences leaves the total
/// warping cost unchanged, since the distance metric is symmetric and the
/// recurrence is symmetric under transposing the cost matrix.
pub proof fn lemma_symmetry_1d(s1: Seq<i64>, s2: Seq<i64>)
    requires
        s1.len() >= 1,
        s2.len() >= 1,
    ensures
        dtw1_cost(s2, s1) == dtw1_cost(s1, s2),
{
    assert(cost_mat1(s2, s1) =~~= transpose(cost_mat1(s1, s2)));
    lemma_warp_transpose(cost_mat1(s1, s2), s1.len() as int, s2.len() as int);
}

/// LAW (symmetry, 3-D): swapping the two sequences leaves the total warping
/// cost unchanged.
pub proof fn lemma_symmetry_3d(s1: Seq<Pt3>, s2: Seq<Pt3>)
    requires
        s1.len() >= 1,
        s2.len() >= 1,
    ensures
        dtw3_cost(s2, s1) == dtw3_cost(s1, s2),
{
    assert forall|i: int, j: int| 0 <= i < s2.len() && 0 <= j < s1.len()
        implies #[trigger] cost_mat3(s2, s1)[i][j] == transpose(cost_mat3(s1, s2))[i][j] by {
        assert(dist3(s2[i], s1[j]) == dist3(s1[j], s2[i])) by (nonlinear_arith);
    }
    assert(cost_mat3(s2, s1) =~~= transpose(cost_mat3(s1, s2)));
    lemma_warp_transpose(cost_mat3(s1, s2), s1.len() as int, s2.len() as int);
}

/// The cost matrix of two in-bounds non-empty scalar sequences is
/// rectangular, non-negative and cell-bounded.
pub proof fn lemma_cost_mat1_ok(s1: Seq<i64>, s2: Seq<i64>)
    requires
        s1.len() >= 1,
        s2.len() >= 1,
        seq1_ok(s1),
        seq1_ok(s2),
    ensures
        mat_dims(cost_mat1(s1, s2)),
        mat_nonneg(cost_mat1(s1, s2)),
        mat_cells_bounded(cost_mat1(s1, s2)),
{
    let c = cost_mat1(s1, s2);
    assert forall|i: int, j: int| 0 <= i < c.len() && 0 <= j < c[i].len() implies 0
        <= #[trigger] c[i][j] <= MAX_CELL by {
        lemma_dist1_bounds(s1[i], s2[j]);
    }
}

/// The cost matrix of two in-bounds non-empty 3-D sequences is rectangular,
/// non-negative and cell-bounded.
pub proof fn lemma_cost_mat3_ok(s1: Seq<Pt3>, s2: Seq<Pt3>)
    requires
        s1.len() >= 1,
        s2.len() >= 1,
        seq3_ok(s1),
        seq3_ok(s2),
    ensures
        mat_dims(cost_mat3(s1, s2)),
        mat_nonneg(cost_mat3(s1, s2)),
        mat_cells_bounded(cost_mat3(s1, s2)),
{
    let c = cost_mat3(s1, s2);
    assert forall|i: int, j: int| 0 <= i < c.len() && 0 <= j < c[i].len() implies 0
        <= #[trigger] c[i][j] <= MAX_CELL by {
        lemma_dist3_bounds(s1[i], s2[j]);
    }
}

/// A `u64` matrix read as a matrix of mathematical integers.
pub open spec fn mat_int(c: Seq<Seq<u64>>) -> Seq<Seq<int>> {
    Seq::new(c.len(), |i: int| Seq::new(c[i].len(), |j: int| c[i][j] as int))
}

/// Builds the pairwise cost matrix of two scalar sequences.
#[verifier::loop_isolation(false)]
pub fn build_cost1(s1: &Vec<i64>, s2: &Vec<i64>) -> (c: Vec<Vec<u64>>)
    requires
        1 <= s1@.len(),
        1 <= s2@.len(),
        seq1_ok(s1@),
        seq1_ok(s2@),
    ensures
        c@.len() == s1@.len(),
        forall|i: int| 0 <= i < c@.len() ==> (#[trigger] c@[i]).len() == s2@.len(),
        forall|i: int, j: int|
            0 <= i < s1@.len() && 0 <= j < s2@.len() ==> #[trigger] c@[i][j]
                == dist1(s1@[i] as int, s2@[j] as int) && c@[i][j] <= MAX_CELL,
{
    let m = s1.len();
    let n = s2.len();
    let mut c: Vec<Vec<u64>> = Vec::new();
    let mut i: usize = 0;
    while i < m
        invariant
            i <= m,
            c@.len() == i,
            forall|r: int| 0 <= r < i ==> (#[trigger] c@[r]).len() == n,
            forall|r: int, k: int|
                0 <= r < i && 0 <= k < n ==> #[trigger] c@[r][k]
                    == dist1(s1@[r] as int, s2@[k] as int) && c@[r][k] <= MAX_CELL,
        decreases m - i,
    {
        let mut row: Vec<u64> = Vec::new();
        let mut j: usize = 0;
        while j < n
            invariant
                i < m,
                j <= n,
                row@.len() == j,
                forall|k: int|
                    0 <= k < j ==> #[trigger] row@[k]
                        == dist1(s1@[i as int] as int, s2@[k] as int) && row@[k] <= MAX_CELL,
            decreases n - j,
        {
            row.push(dist1_exec(s1[i], s2[j]));
            j += 1;
        }
        c.push(row);
        i += 1;
    }
    c
}

/// Builds the pairwise cost matrix of two 3-D sequences.
#[verifier::loop_isolation(false)]
pub fn build_cost3(s1: &Vec<Pt3>, s2: &Vec<Pt3>) -> (c: Vec<Vec<u64>>)
    requires
        1 <= s1@.len(),
        1 <= s2@.len(),
        seq3_ok(s1@),
        seq3_ok(s2@),
    ensures
        c@.len() == s1@.len(),
        forall|i: int| 0 <= i < c@.len() ==> (#[trigger] c@[i]).len() == s2@.len(),
        forall|i: int, j: int|
            0 <= i < s1@.len() && 0 <= j < s2@.len() ==> #[trigger] c@[i][j]
                == dist3(s1@[i], s2@[j]) && c@[i][j] <= MAX_CELL,
{
    let m = s1.len();
    let n = s2.len();
    let mut c: Vec<Vec<u64>> = Vec::new();
    let mut i: usize = 0;
    while i < m
        invariant
            i <= m,
            c@.len() == i,
            forall|r: int| 0 <= r < i ==> (#[trigger] c@[r]).len() == n,
            forall|r: int, k: int|
                0 <= r < i && 0 <= k < n ==> #[trigger] c@[r][k]
                    == dist3(s1@[r], s2@[k]) && c@[r][k] <= MAX_CELL,
        decreases m - i,
    {
        let mut row: Vec<u64> = Vec::new();
        let mut j: usize = 0;
        while j < n
            invariant
                i < m,
                j <= n,
                row@.len() == j,
                forall|k: int|
                    0 <= k < j ==> #[trigger] row@[k]
                        == dist3(s1@[i as int], s2@[k]) && row@[k] <= MAX_CELL,
            decreases n - j,
        {
            row.push(dist3_exec(&s1[i], &s2[j]));
            j += 1;
        }
        c.push(row);
        i += 1;
    }
    c
}

/// Builds the warping matrix of a cost matrix by the dynamic-programming
/// recurrence: row 0 and column 0 are unreachable sentinels except the zero
/// origin, and every other cell adds its cost-matrix cell to the least of
/// its upper, left and diagonal predecessors.
#[verifier::loop_isolation(false)]
pub fn build_warp(c: &Vec<Vec<u64>>) -> (w: Vec<Vec<u64>>)
    requires
        1 <= c@.len() <= LEN_LIMIT,
        1 <= c@[0].len() <= LEN_LIMIT,
        forall|i: int| 0 <= i < c@.len() ==> (#[trigger] c@[i]).len() == c@[0].len(),
        forall|i: int, j: int|
            0 <= i < c@.len() && 0 <= j < c@[0].len() ==> #[trigger] c@[i][j] <= MAX_CELL,
    ensures
        w@.len() == c@.len() + 1,
        forall|i: int| 0 <= i < w@.len() ==> (#[trigger] w@[i]).len() == c@[0].len() + 1,
        w@[0][0] == 0,
        forall|j: int| 1 <= j <= c@[0].len() ==> #[trigger] w@[0][j] == INF,
        forall|i: int| 1 <= i <= c@.len() ==> #[trigger] w@[i][0] == INF,
        forall|i: int, j: int|
            1 <= i <= c@.len() && 1 <= j <= c@[0].len() ==> #[trigger] w@[i][j]
                == warp(mat_int(c.deep_view()), i, j) && w@[i][j] < INF,
{
    let m = c.len();
    let n = c[0].len();
    let mut w: Vec<Vec<u64>> = Vec::new();
    let mut row0: Vec<u64> = Vec::new();
    row0.push(0u64);
    let mut j: usize = 1;
    while j <= n
        invariant
            1 <= j <= n + 1,
            row0@.len() == j,
            row0@[0] == 0,
            forall|k: int| 1 <= k < j ==> #[trigger] row0@[k] == INF,
        decreases n + 1 - j,
    {
        row0.push(INF);
        j += 1;
    }
    w.push(row0);
    let mut i: usize = 1;
    while i <= m
        invariant
            1 <= i <= m + 1,
            w@.len() == i,
            forall|r: int| 0 <= r < i ==> (#[trigger] w@[r]).len() == n + 1,
            w@[0][0] == 0,
            forall|k: int| 1 <= k <= n ==> #[trigger] w@[0][k] == INF,
            forall|r: int| 1 <= r < i ==> #[trigger] w@[r][0] == INF,
            forall|r: int, k: int|
                1 <= r < i && 1 <= k <= n ==> #[trigger] w@[r][k]
                    == warp(mat_int(c.deep_view()), r, k) && w@[r][k] <= (r + k - 1) * MAX_CELL,
        decreases m + 1 - i,
    {
        let mut row: Vec<u64> = Vec::new();
        row.push(INF);
        let mut jj: usize = 1;
        while jj <= n
            invariant
                i <= m,
                1 <= jj <= n + 1,
                row@.len() == jj,
                row@[0] == INF,
                forall|k: int|
                    1 <= k < jj ==> #[trigger] row@[k] == warp(mat_int(c.deep_view()), i as int, k)
                        && row@[k] <= (i + k - 1) * MAX_CELL,
            decreases n + 1 - jj,
        {
            let up: u64 = w[i - 1][jj];
            let left: u64 = row[jj - 1];
            let diag: u64 = w[i - 1][jj - 1];
            let mn: u64 = if up <= left && up <= diag {
                up
            } else if left <= diag {
                left
            } else {
                diag
            };
            proof {
                let ci = mat_int(c.deep_view());
                let gi = i as int;
                let gj = jj as int;
                assert(ci[gi - 1][gj - 1] == c@[gi - 1][gj - 1] as int);
                if gi == 1 && gj == 1 {
                    assert(mn == 0);
                } else if gi == 1 {
                    assert(left <= (gi + gj - 2) * MAX_CELL);
                    assert(left < INF);
                    assert(mn == left);
                } else if gj == 1 {
                    assert(up <= (gi + gj - 2) * MAX_CELL);
                    assert(up < INF);
                    assert(mn == up);
                } else {
                    assert(mn <= diag);
                    assert(mn as int == min3(up as int, left as int, diag as int));
                }
                assert(mn <= (gi + gj - 2) * MAX_CELL);
                assert(c@[gi - 1][gj - 1] + mn <= (gi + gj - 1) * MAX_CELL);
                assert((gi + gj - 1) * MAX_CELL < INF);
            }
            let v: u64 = c[i - 1][jj - 1] + mn;
            row.push(v);
            jj += 1;
        }
        w.push(row);
        i += 1;
    }
    w
}

} // verus!
