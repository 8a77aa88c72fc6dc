//! Scoring constants and piece-square tables.
//!
//! Every score is an `i64` counting hundredths of a pawn, so that the
//! evaluator's fractional weights are exact.

use vstd::prelude::*;

verus! {

/// One whole point, the value of a pawn, in score units.
pub const POINT: i64 = 100;

/// Sentinel for a forced win; larger than any heuristic score.
pub const CHECKMATE: i64 = 10_000_000;

/// Every score that the search returns, or accepts from a cache, lies in
/// `[-SCORE_LIMIT, SCORE_LIMIT]`.
pub const SCORE_LIMIT: i64 = 20_000_000;

pub const PAWN: i64 = 100;

pub const KNIGHT: i64 = 300;

pub const BISHOP: i64 = 300;

pub const ROOK: i64 = 500;

pub const QUEEN: i64 = 900;

/// Penalty per step of distance from the board's centre.
pub const CENTER_WEIGHT: i64 = 30;

/// Bonus for a pawn with no pawn on a neighbouring file.
pub const ISOLATED_PAWN: i64 = 50;

/// Penalty for each pawn beyond the first that a side has on one file.
pub const DOUBLED_PAWN: i64 = 50;

/// Weight of one legal move in the mobility differential.
pub const MOVE_WEIGHT: i64 = 10;

/// Legal-move counts enter the mobility differential up to this number,
/// which no chess position reaches.
pub const MOVE_LIMIT: usize = 1024;

/// No entry of a piece-square table is larger in magnitude.
pub const TABLE_LIMIT: i64 = 50;

/// Piece-square table for pawns, indexed by square from a1.
pub const PAWNS: [i64; 64] = [
    0, 0, 0, 0, 0, 0, 0, 0,
    0, 0, 0, -10, -10, 0, 0, 0,
    0, 0, 5, 5, 5, 5, 0, 0,
    0, 5, 10, 20, 20, 10, 5, 0,
    5, 10, 15, 25, 25, 15, 10, 5,
    10, 15, 20, 30, 30, 20, 15, 10,
    30, 35, 40, 45, 45, 40, 35, 30,
    0, 0, 0, 0, 0, 0, 0, 0,
];

/// Piece-square table for knights, indexed by square from a1.
pub const KNIGHTS: [i64; 64] = [
    -40, -30, -20, -20, -20, -20, -30, -40,
    -30, -10, 0, 5, 5, 0, -10, -30,
    -20, 0, 10, 15, 15, 10, 0, -20,
    -20, 5, 15, 20, 20, 15, 5, -20,
    -20, 5, 15, 20, 20, 15, 5, -20,
    -20, 0, 10, 15, 15, 10, 0, -20,
    -30, -10, 0, 0, 0, 0, -10, -30,
    -40, -30, -20, -20, -20, -20, -30, -40,
];

/// Piece-square table for bishops, indexed by square from a1.
pub const BISHOPS: [i64; 64] = [
    -20, -10, -10, -10, -10, -10, -10, -20,
    -10, 10, 0, 5, 5, 0, 10, -10,
    -10, 5, 10, 10, 10, 10, 5, -10,
    -10, 0, 10, 15, 15, 10, 0, -10,
    -10, 5, 5, 15, 15, 5, 5, -10,
    -10, 0, 5, 10, 10, 5, 0, -10,
    -10, 0, 0, 0, 0, 0, 0, -10,
    -20, -10, -10, -10, -10, -10, -10, -20,
];

/// Piece-square table for rooks, indexed by square from a1.
pub const ROOKS: [i64; 64] = [
    0, 0, 5, 10, 10, 5, 0, 0,
    -5, 0, 0, 0, 0, 0, 0, -5,
    -5, 0, 0, 0, 0, 0, 0, -5,
    -5, 0, 0, 0, 0, 0, 0, -5,
    -5, 0, 0, 0, 0, 0, 0, -5,
    -5, 0, 0, 0, 0, 0, 0, -5,
    10, 15, 15, 15, 15, 15, 15, 10,
    0, 0, 0, 5, 5, 0, 0, 0,
];

/// Piece-square table for queens, indexed by square from a1.
pub const QUEENS: [i64; 64] = [
    -20, -10, -10, -5, -5, -10, -10, -20,
    -10, 0, 5, 0, 0, 5, 0, -10,
    -10, 5, 5, 5, 5, 5, 5, -10,
    -5, 0, 5, 10, 10, 5, 0, -5,
    -5, 0, 5, 10, 10, 5, 0, -5,
    -10, 0, 5, 5, 5, 5, 0, -10,
    -10, 0, 0, 0, 0, 0, 0, -10,
    -20, -10, -10, -5, -5, -10, -10, -20,
];

/// Piece-square table for kings, indexed by square from a1.
pub const KINGS: [i64; 64] = [
    20, 30, 10, 0, 0, 10, 30, 20,
    20, 20, 0, -5, -5, 0, 20, 20,
    -10, -20, -20, -25, -25, -20, -20, -10,
    -20, -30, -30, -40, -40, -30, -30, -20,
    -30, -40, -40, -50, -50, -40, -40, -30,
    -30, -40, -40, -50, -50, -40, -40, -30,
    -30, -40, -40, -50, -50, -40, -40, -30,
    -30, -40, -40, -50, -50, -40, -40, -30,
];

/// The value of a piece kind; the king has none.
pub open spec fn piece_value(kind: int) -> int {
    if kind == 0 {
        PAWN as int
    } else if kind == 1 {
        KNIGHT as int
    } else if kind == 2 {
        BISHOP as int
    } else if kind == 3 {
        ROOK as int
    } else if kind == 4 {
        QUEEN as int
    } else {
        0
    }
}

/// The piece-square table entry of a piece kind on a square.
pub open spec fn table_entry(kind: int, index: int) -> int {
    if kind == 0 {
        PAWNS[index] as int
    } else if kind == 1 {
        KNIGHTS[index] as int
    } else if kind == 2 {
        BISHOPS[index] as int
    } else if kind == 3 {
        ROOKS[index] as int
    } else if kind == 4 {
        QUEENS[index] as int
    } else {
        KINGS[index] as int
    }
}

/// The square on the same rank whose file is reflected (a to h, b to g, ...).
pub open spec fn file_mirror(index: int) -> int {
    index - index % 8 + (7 - index % 8)
}

pub fn value(kind: u8) -> (v: i64)
    ensures
        v == piece_value(kind as int),
        0 <= v <= QUEEN,
{
    if kind == 0 {
        PAWN
    } else if kind == 1 {
        KNIGHT
    } else if kind == 2 {
        BISHOP
    } else if kind == 3 {
        ROOK
    } else if kind == 4 {
        QUEEN
    } else {
        0
    }
}

pub fn table_value(kind: u8, index: u8) -> (v: i64)
    requires
        index < 64,
    ensures
        v == table_entry(kind as int, index as int),
        -TABLE_LIMIT <= v <= TABLE_LIMIT,
{
    let i = index as usize;
    if kind == 0 {
        PAWNS[i]
    } else if kind == 1 {
        KNIGHTS[i]
    } else if kind == 2 {
        BISHOPS[i]
    } else if kind == 3 {
        ROOKS[i]
    } else if kind == 4 {
        QUEENS[i]
    } else {
        KINGS[i]
    }
}

/// Every piece-square table reads the same from the a-file and from the
/// h-file.
pub proof fn lemma_tables_file_symmetric(kind: int, index: int)
    requires
        0 <= index < 64,
    ensures
        table_entry(kind, file_mirror(index)) == table_entry(kind, index),
{
}

} // verus!
