use vstd::prelude::*;
use crate::warp::warp;
use crate::warp::mat_dims;
use crate::warp::mat_nonneg;
use crate::warp::mat_cells_bounded;
use crate::warp::lemma_warp_nonneg;
use crate::warp::lemma_warp_bound;
use crate::INF;
use crate::LEN_LIMIT;
use crate::MAX_CELL;

verus! {

/// A warping matrix the backtracking walk can run on: (m+1) x (n+1) cells,
/// row 0 and column 0 hold the unreachable sentinel, every genuine cell
/// stays below it.
pub open spec fn wm_wf(w: Seq<Seq<u64>>, m: int, n: int) -> bool {
    &&& 1 <= m
    &&& 1 <= n
    &&& w.len() == m + 1
    &&& forall|i: int| 0 <= i <= m ==> (#[trigger] w[i]).len() == n + 1
    &&& forall|j: int| 1 <= j <= n ==> #[trigger] w[0][j] == INF
    &&& forall|i: int| 1 <= i <= m ==> #[trigger] w[i][0] == INF
    &&& forall|i: int, j: int| 1 <= i <= m && 1 <= j <= n ==> #[trigger] w[i][j] < INF
}

/// The warping matrix a cost matrix determines, as a value: cell (0, 0) is
/// zero, the rest of row 0 and column 0 the unreachable sentinel, and every
/// other cell the accumulated cost `warp` gives it.
pub open spec fn warp_full(c: Seq<Seq<int>>, m: int, n: int) -> Seq<Seq<u64>> {
    Seq::new(
        (m + 1) as nat,
        |i: int|
            Seq::new(
                (n + 1) as nat,
                |j: int|
                    if i == 0 && j == 0 {
                        0u64
                    } else if i == 0 || j == 0 {
                        INF
                    } else {
                        warp(c, i, j) as u64
                    },
            ),
    )
}

/// The warping matrix of a bounded cost matrix is fit for backtracking:
/// every accumulated cost stays below the sentinel.
pub proof fn lemma_warp_full_wf(c: Seq<Seq<int>>, m: int, n: int)
    requires
        mat_dims(c),
        mat_nonneg(c),
        mat_cells_bounded(c),
        m == c.len(),
        n == c[0].len(),
        m <= LEN_LIMIT,
        n <= LEN_LIMIT,
    ensures
        wm_wf(warp_full(c, m, n), m, n),
{
    let w = warp_full(c, m, n);
    assert forall|i: int, j: int| 1 <= i <= m && 1 <= j <= n implies #[trigger] w[i][j]
        < INF by {
        lemma_warp_nonneg(c, i, j);
        lemma_warp_bound(c, i, j);
        assert((i + j - 1) * MAX_CELL < INF);
    }
}

/// One backward step of the reconstruction from cell (x, y): move to
/// whichever of the upper, left and diagonal neighbours holds the least
/// value, preferring up over left over diagonal on ties.
pub open spec fn step_back(w: Seq<Seq<u64>>, x: int, y: int) -> (int, int) {
    let up = w[x - 1][y];
    let left = w[x][y - 1];
    let diag = w[x - 1][y - 1];
    if up <= left && up <= diag {
        (x - 1, y)
    } else if left <= diag {
        (x, y - 1)
    } else {
        (x - 1, y - 1)
    }
}

/// The alignment path the backward walk reconstructs, ordered from (1, 1)
/// up to (x, y).
pub open spec fn path_of(w: Seq<Seq<u64>>, x: int, y: int) -> Seq<(int, int)>
    decreases x + y,
{
    if x + y <= 2 {
        seq![(x, y)]
    } else {
        let prev = step_back(w, x, y);
        path_of(w, prev.0, prev.1).push((x, y))
    }
}

/// A forward path step advances each coordinate by at most one and at
/// least one of them by exactly one.
pub open spec fn step_ok(a: (int, int), b: (int, int)) -> bool {
    ||| b == (a.0 + 1, a.1)
    ||| b == (a.0, a.1 + 1)
    ||| b == (a.0 + 1, a.1 + 1)
}

/// An executable path lists exactly the cells of a mathematical one.
pub open spec fn path_matches(p: Seq<(usize, usize)>, q: Seq<(int, int)>) -> bool {
    &&& p.len() == q.len()
    &&& forall|k: int| 0 <= k < p.len() ==> #[trigger] q[k] == ((p[k].0 as int, p[k].1 as int))
}

/// LAW (path boundary): on a well-formed warping matrix the reconstructed
/// path starts at (1, 1), ends at (x, y), stays inside the rectangle, and
/// every consecutive pair of steps advances each coordinate by at most one
/// and at least one coordinate by exactly one.
#[verifier::rlimit(60)]
pub proof fn lemma_path_props(w: Seq<Seq<u64>>, m: int, n: int, x: int, y: int)
    requires
        wm_wf(w, m, n),
        1 <= x <= m,
        1 <= y <= n,
    ensures
        path_of(w, x, y).len() >= 1,
        path_of(w, x, y)[0] == ((1int, 1int)),
        path_of(w, x, y).last() == ((x, y)),
        forall|k: int|
            0 <= k < path_of(w, x, y).len() ==> 1 <= (#[trigger] path_of(w, x, y)[k]).0 <= x
                && 1 <= path_of(w, x, y)[k].1 <= y,
        forall|k: int|
            0 <= k < path_of(w, x, y).len() - 1 ==> step_ok(
                #[trigger] path_of(w, x, y)[k],
                path_of(w, x, y)[k + 1],
            ),
    decreases x + y,
{
    if x + y <= 2 {
    } else {
        let prev = step_back(w, x, y);
        if x == 1 {
            assert(w[x - 1][y] == INF);
            assert(w[x][y - 1] < INF);
            assert(prev == ((x, y - 1)));
        } else if y == 1 {
            assert(w[x - 1][y] < INF);
            assert(w[x][y - 1] == INF);
            assert(w[x - 1][y - 1] == INF);
            assert(prev == ((x - 1, y)));
        }
        lemma_path_props(w, m, n, prev.0, prev.1);
        let pp = path_of(w, prev.0, prev.1);
        let p = path_of(w, x, y);
        assert(p == pp.push((x, y)));
        assert(p[0] == pp[0]);
        assert forall|k: int| 0 <= k < p.len() implies 1 <= (#[trigger] p[k]).0 <= x && 1
            <= p[k].1 <= y by {
            if k < pp.len() {
                assert(p[k] == pp[k]);
            } else {
                assert(p[k] == ((x, y)));
            }
        }
        assert forall|k: int| 0 <= k < p.len() - 1 implies step_ok(#[trigger] p[k], p[k + 1]) by {
            if k < pp.len() - 1 {
                assert(p[k] == pp[k]);
                assert(p[k + 1] == pp[k + 1]);
            } else {
                assert(p[k] == pp.last());
                assert(p[k + 1] == ((x, y)));
            }
        }
    }
}

/// Reconstructs the optimal alignment path by walking backward from
/// (m, n) to (1, 1) and reversing the visited cells.
#[verifier::loop_isolation(false)]
pub fn build_path(w: &Vec<Vec<u64>>, m: usize, n: usize) -> (p: Vec<(usize, usize)>)
    requires
        wm_wf(w.deep_view(), m as int, n as int),
    ensures
        path_matches(p@, path_of(w.deep_view(), m as int, n as int)),
{
    let ghost wv = w.deep_view();
    let ghost gm = m as int;
    let ghost gn = n as int;
    let mut rev: Vec<(usize, usize)> = Vec::new();
    let mut x: usize = m;
    let mut y: usize = n;
    rev.push((x, y));
    proof {
        assert(path_of(wv, gm, gn) =~= path_of(wv, x as int, y as int) + back_tail(rev@));
    }
    while !(x == 1 && y == 1)
        invariant
            1 <= x <= m,
            1 <= y <= n,
            rev@.len() >= 1,
            rev@.last() == ((x, y)),
            path_of(wv, gm, gn) == path_of(wv, x as int, y as int) + back_tail(rev@),
        decreases x + y,
    {
        let ghost oldrev = rev@;
        let ghost gx = x as int;
        let ghost gy = y as int;
        let up: u64 = w[x - 1][y];
        let left: u64 = w[x][y - 1];
        let diag: u64 = w[x - 1][y - 1];
        proof {
            assert(up == wv[gx - 1][gy]);
            assert(left == wv[gx][gy - 1]);
            assert(diag == wv[gx - 1][gy - 1]);
            if gx == 1 {
                assert(wv[gx - 1][gy] == INF);
                assert(wv[gx][gy - 1] < INF);
            } else if gy == 1 {
                assert(wv[gx - 1][gy] < INF);
                assert(wv[gx][gy - 1] == INF);
                assert(wv[gx - 1][gy - 1] == INF);
            }
        }
        if up <= left && up <= diag {
            x = x - 1;
        } else if left <= diag {
            y = y - 1;
        } else {
            x = x - 1;
            y = y - 1;
        }
        rev.push((x, y));
        proof {
            assert(step_back(wv, gx, gy) == ((x as int, y as int)));
            assert(path_of(wv, gx, gy) == path_of(wv, x as int, y as int).push((gx, gy)));
            assert(back_tail(rev@) =~= seq![(gx, gy)] + back_tail(oldrev));
            assert(path_of(wv, x as int, y as int).push((gx, gy)) + back_tail(oldrev) =~= path_of(
                wv,
                x as int,
                y as int,
            ) + back_tail(rev@));
        }
    }
    let len = rev.len();
    let mut p: Vec<(usize, usize)> = Vec::new();
    let mut k: usize = 0;
    while k < len
        invariant
            k <= len,
            p@.len() == k,
            forall|t: int| 0 <= t < k ==> #[trigger] p@[t] == rev@[len - 1 - t],
        decreases len - k,
    {
        p.push(rev[len - 1 - k]);
        k += 1;
    }
    proof {
        let q = path_of(wv, gm, gn);
        assert(path_of(wv, 1, 1) == seq![(1int, 1int)]);
        assert forall|t: int| 0 <= t < p@.len() implies q[t] == ((#[trigger] p@[t].0 as int,
        p@[t].1 as int)) by {
            if t >= 1 {
                assert(q[t] == back_tail(rev@)[t - 1]);
            }
        }
    }
    p
}

/// The cells a backward walk has recorded, read forward: the record in
/// reverse order, without its newest entry.
pub open spec fn back_tail(s: Seq<(usize, usize)>) -> Seq<(int, int)> {
    Seq::new((s.len() - 1) as nat, |i: int| (s[s.len() - 2 - i].0 as int, s[s.len() - 2 - i].1 as int))
}

} // verus!
