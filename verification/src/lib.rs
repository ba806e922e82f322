use vstd::prelude::*;

pub mod point;
pub mod warp;
pub mod path;
pub mod dtw;
pub mod dtw3d;
pub mod gr_model;

verus! {

/// Largest coordinate magnitude the library accepts. Together with
/// `LEN_LIMIT` it keeps every pairwise distance and every accumulated
/// warping cost comfortably inside `u64`.
pub const COORD_LIMIT: i64 = 1048576;

/// Largest value a single cost-matrix cell can take: the squared Euclidean
/// distance of two in-bounds 3-D points, 3 * (2 * COORD_LIMIT)^2.
pub const MAX_CELL: u64 = 13194139533312;

/// Largest sequence length the library accepts; an accumulated warping
/// cost is then at most (2 * LEN_LIMIT - 1) * MAX_CELL, which fits in u64.
pub const LEN_LIMIT: usize = 65536;

/// Sentinel stored in row 0 and column 0 of a warping matrix, standing for
/// an unreachable predecessor. Every genuine accumulated cost stays below it.
pub const INF: u64 = 18446744073709551615;

/// The error cases the pipeline reports instead of silently defaulting.
#[derive(Clone, Copy, Debug, PartialEq, Eq, Structural)]
pub enum GrError {
    /// Coordinate axes of a record have unequal lengths.
    MalformedInput,
    /// A dynamic-time-warping computation was asked for an empty sequence.
    EmptySequence,
    /// Classification was attempted before any template was trained.
    NoTemplates,
}

} // verus!
