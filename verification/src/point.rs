use vstd::prelude::*;
use crate::COORD_LIMIT;
use crate::MAX_CELL;

verus! {

/// A 3-D gesture sample. Coordinates are integer-quantised readings; the
/// caller picks the quantisation step when it converts raw data.
#[derive(Clone, Copy, Debug, PartialEq, Eq, Structural)]
pub struct Pt3 {
    pub x: i64,
    pub y: i64,
    pub z: i64,
}

/// A scalar sample is within the coordinate bounds.
pub open spec fn coord_ok(a: i64) -> bool {
    -COORD_LIMIT <= a <= COORD_LIMIT
}

/// A 3-D sample is within the coordinate bounds.
pub open spec fn pt_ok(p: Pt3) -> bool {
    coord_ok(p.x) && coord_ok(p.y) && coord_ok(p.z)
}

/// Every sample of a scalar sequence is within bounds.
pub open spec fn seq1_ok(s: Seq<i64>) -> bool {
    forall|i: int| 0 <= i < s.len() ==> coord_ok(#[trigger] s[i])
}

/// Every sample of a 3-D sequence is within bounds.
pub open spec fn seq3_ok(s: Seq<Pt3>) -> bool {
    forall|i: int| 0 <= i < s.len() ==> pt_ok(#[trigger] s[i])
}

/// Distance between two scalar samples: the absolute difference.
pub open spec fn dist1(a: int, b: int) -> int {
    if a >= b {
        a - b
    } else {
        b - a
    }
}

/// Distance between two 3-D samples: the squared Euclidean distance,
/// deliberately not square-rooted.
pub open spec fn dist3(p: Pt3, q: Pt3) -> int {
    (p.x - q.x) * (p.x - q.x) + (p.y - q.y) * (p.y - q.y) + (p.z - q.z) * (p.z - q.z)
}

/// In-bounds samples keep the scalar distance within one cost-matrix cell.
pub proof fn lemma_dist1_bounds(a: i64, b: i64)
    requires
        coord_ok(a),
        coord_ok(b),
    ensures
        0 <= dist1(a as int, b as int) <= MAX_CELL,
{
}

/// In-bounds samples keep the 3-D distance within one cost-matrix cell.
pub proof fn lemma_dist3_bounds(p: Pt3, q: Pt3)
    requires
        pt_ok(p),
        pt_ok(q),
    ensures
        0 <= dist3(p, q) <= MAX_CELL,
{
    let dx = p.x - q.x;
    let dy = p.y - q.y;
    let dz = p.z - q.z;
    assert(dx * dx <= (2 * COORD_LIMIT) * (2 * COORD_LIMIT)) by (nonlinear_arith)
        requires -2 * COORD_LIMIT <= dx <= 2 * COORD_LIMIT;
    assert(dy * dy <= (2 * COORD_LIMIT) * (2 * COORD_LIMIT)) by (nonlinear_arith)
        requires -2 * COORD_LIMIT <= dy <= 2 * COORD_LIMIT;
    assert(dz * dz <= (2 * COORD_LIMIT) * (2 * COORD_LIMIT)) by (nonlinear_arith)
        requires -2 * COORD_LIMIT <= dz <= 2 * COORD_LIMIT;
    assert(dx * dx >= 0) by (nonlinear_arith);
    assert(dy * dy >= 0) by (nonlinear_arith);
    assert(dz * dz >= 0) by (nonlinear_arith);
}

/// Exact scalar distance, computed without overflow.
pub fn dist1_exec(a: i64, b: i64) -> (r: u64)
    requires
        coord_ok(a),
        coord_ok(b),
    ensures
        r as int == dist1(a as int, b as int),
        r <= MAX_CELL,
{
    if a >= b {
        (a - b) as u64
    } else {
        (b - a) as u64
    }
}

/// Exact 3-D distance, computed without overflow.
pub fn dist3_exec(p: &Pt3, q: &Pt3) -> (r: u64)
    requires
        pt_ok(*p),
        pt_ok(*q),
    ensures
        r as int == dist3(*p, *q),
        r <= MAX_CELL,
{
    proof {
        lemma_dist3_bounds(*p, *q);
    }
    let dx = p.x - q.x;
    let dy = p.y - q.y;
    let dz = p.z - q.z;
    proof {
        assert(0 <= dx * dx <= (2 * COORD_LIMIT) * (2 * COORD_LIMIT)) by (nonlinear_arith)
            requires -2 * COORD_LIMIT <= dx <= 2 * COORD_LIMIT;
        assert(0 <= dy * dy <= (2 * COORD_LIMIT) * (2 * COORD_LIMIT)) by (nonlinear_arith)
            requires -2 * COORD_LIMIT <= dy <= 2 * COORD_LIMIT;
        assert(0 <= dz * dz <= (2 * COORD_LIMIT) * (2 * COORD_LIMIT)) by (nonlinear_arith)
            requires -2 * COORD_LIMIT <= dz <= 2 * COORD_LIMIT;
    }
    (dx * dx + dy * dy + dz * dz) as u64
}

/// The coordinate halfway between two samples, rounded toward zero;
/// used by the 3-D aligner to average two matched points.
pub open spec fn mid_int(a: int, b: int) -> int {
    if a + b >= 0 {
        (a + b) / 2
    } else {
        -((-(a + b)) / 2)
    }
}

/// The 3-D point halfway between two samples, per coordinate.
pub open spec fn mid3(p: Pt3, q: Pt3) -> Pt3 {
    Pt3 {
        x: mid_int(p.x as int, q.x as int) as i64,
        y: mid_int(p.y as int, q.y as int) as i64,
        z: mid_int(p.z as int, q.z as int) as i64,
    }
}

/// Exact halfway coordinate, computed without overflow.
pub fn mid_coord(a: i64, b: i64) -> (r: i64)
    requires
        coord_ok(a),
        coord_ok(b),
    ensures
        r as int == mid_int(a as int, b as int),
        coord_ok(r),
{
    let s: i64 = a + b;
    if s >= 0 {
        ((s as u64) / 2) as i64
    } else {
        -((((-s) as u64) / 2) as i64)
    }
}

/// Exact halfway point between two in-bounds samples.
pub fn mid3_exec(p: &Pt3, q: &Pt3) -> (r: Pt3)
    requires
        pt_ok(*p),
        pt_ok(*q),
    ensures
        r == mid3(*p, *q),
        pt_ok(r),
{
    Pt3 { x: mid_coord(p.x, q.x), y: mid_coord(p.y, q.y), z: mid_coord(p.z, q.z) }
}

} // verus!
