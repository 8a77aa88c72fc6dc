//! Bit sets of squares and the `chess` crate's attack tables.
//!
//! A set of squares is a `u64` whose bit `i` stands for square `i`
//! (0 = a1, 1 = b1, ..., 63 = h8). The tables are computed by the `chess`
//! crate; their contracts below restate the geometry by which that crate
//! fills them and are assumed, not proved.

use vstd::prelude::*;

verus! {

/// Rank of a square, 0 for the first rank.
pub open spec fn rank_of(sq: int) -> int {
    sq / 8
}

/// File of a square, 0 for the a-file.
pub open spec fn file_of(sq: int) -> int {
    sq % 8
}

pub open spec fn distance(a: int, b: int) -> int {
    if a <= b {
        b - a
    } else {
        a - b
    }
}

/// Whether square `i` is in the set.
pub open spec fn has_bit(set: u64, i: int) -> bool {
    (set >> (i as u64)) & 1 == 1
}

/// A knight's jump: two steps along one axis and one along the other.
pub open spec fn knight_reach(from: int, to: int) -> bool {
    let dr = distance(rank_of(from), rank_of(to));
    let df = distance(file_of(from), file_of(to));
    (dr == 2 && df == 1) || (dr == 1 && df == 2)
}

/// A king's step: to a neighbouring square.
pub open spec fn king_reach(from: int, to: int) -> bool {
    distance(rank_of(from), rank_of(to)) <= 1 && distance(file_of(from), file_of(to)) <= 1 && from
        != to
}

/// A rook's ray on an empty board: along the rank or the file.
pub open spec fn rook_reach(from: int, to: int) -> bool {
    (rank_of(from) == rank_of(to) || file_of(from) == file_of(to)) && from != to
}

/// A bishop's ray on an empty board: along a diagonal.
pub open spec fn bishop_reach(from: int, to: int) -> bool {
    distance(rank_of(from), rank_of(to)) == distance(file_of(from), file_of(to)) && from != to
}

/// The rank just ahead of `rank` for a pawn of the given colour; outside
/// `0..8` where the pawn stands on its last rank.
pub open spec fn rank_ahead(rank: int, black: bool) -> int {
    if black {
        rank - 1
    } else {
        rank + 1
    }
}

/// The rank on which a pawn of the given colour starts.
pub open spec fn start_rank(black: bool) -> int {
    if black {
        6
    } else {
        1
    }
}

/// A pawn's capture: one rank ahead, one file aside.
pub open spec fn pawn_attack_reach(from: int, black: bool, to: int) -> bool {
    rank_of(to) == rank_ahead(rank_of(from), black) && distance(file_of(from), file_of(to)) == 1
}

/// The squares of a bit set.
pub open spec fn squares_in(set: u64) -> Set<int> {
    Set::new(|t: int| 0 <= t < 64 && has_bit(set, t))
}

/// A pawn's push past the squares in `blockers`: one rank ahead if that
/// square is free, or two from the starting rank if both squares are free.
pub open spec fn pawn_push_reach(from: int, black: bool, blockers: Set<int>, to: int) -> bool {
    let ahead = rank_ahead(rank_of(from), black);
    &&& 0 <= ahead < 8
    &&& !blockers.contains(ahead * 8 + file_of(from))
    &&& !blockers.contains(to)
    &&& file_of(to) == file_of(from)
    &&& (rank_of(to) == ahead || (rank_of(from) == start_rank(black) && rank_of(to) == rank_ahead(
        ahead,
        black,
    )))
}

/// A square on a file next to `file`.
pub open spec fn beside_file(file: int, to: int) -> bool {
    distance(file, file_of(to)) == 1
}

/// Tests one square of a set.
pub fn test_bit(set: u64, i: u8) -> (r: bool)
    requires
        i < 64,
    ensures
        r == has_bit(set, i as int),
{
    (set >> (i as u64)) & 1 == 1
}

/// The set with square `i` added.
pub fn with_bit(set: u64, i: u8) -> (r: u64)
    requires
        i < 64,
    ensures
        forall|t: int| 0 <= t < 64 ==> has_bit(r, t) == (has_bit(set, t) || t == i),
{
    let r = set | (1u64 << (i as u64));
    assert forall|t: int| 0 <= t < 64 implies has_bit(r, t) == (has_bit(set, t) || t == i) by {
        let tt = t as u64;
        let ii = i as u64;
        assert(tt < 64 && ii < 64 ==> ((((set | (1u64 << ii)) >> tt) & 1 == 1) <==> (((set >> tt) & 1
            == 1) || tt == ii))) by (bit_vector);
    }
    r
}

/// The squares that lie in either set.
pub fn either(a: u64, b: u64) -> (r: u64)
    ensures
        forall|t: int| 0 <= t < 64 ==> has_bit(r, t) == (has_bit(a, t) || has_bit(b, t)),
{
    let r = a | b;
    assert forall|t: int| 0 <= t < 64 implies has_bit(r, t) == (has_bit(a, t) || has_bit(b, t)) by {
        let tt = t as u64;
        assert(tt < 64 ==> ((((a | b) >> tt) & 1 == 1) <==> (((a >> tt) & 1 == 1) || ((b >> tt) & 1
            == 1)))) by (bit_vector);
    }
    r
}

/// The empty set holds no square.
pub proof fn lemma_empty_set()
    ensures
        forall|t: int| 0 <= t < 64 ==> !has_bit(0u64, t),
{
    assert forall|t: int| 0 <= t < 64 implies !has_bit(0u64, t) by {
        let tt = t as u64;
        assert(tt < 64 ==> (0u64 >> tt) & 1 == 0) by (bit_vector);
    }
}

/// `chess::get_knight_moves`: the squares a knight's jump away.
#[verifier::external_body]
pub(crate) fn knight_moves(square: u8) -> (r: u64)
    requires
        square < 64,
    ensures
        forall|t: int| 0 <= t < 64 ==> has_bit(r, t) == knight_reach(square as int, t),
{
    chess::get_knight_moves(chess::ALL_SQUARES[square as usize]).0
}

/// `chess::get_king_moves`: the neighbouring squares.
#[verifier::external_body]
pub(crate) fn king_moves(square: u8) -> (r: u64)
    requires
        square < 64,
    ensures
        forall|t: int| 0 <= t < 64 ==> has_bit(r, t) == king_reach(square as int, t),
{
    chess::get_king_moves(chess::ALL_SQUARES[square as usize]).0
}

/// `chess::get_rook_rays`: the other squares of the rank and of the file.
#[verifier::external_body]
pub(crate) fn rook_rays(square: u8) -> (r: u64)
    requires
        square < 64,
    ensures
        forall|t: int| 0 <= t < 64 ==> has_bit(r, t) == rook_reach(square as int, t),
{
    chess::get_rook_rays(chess::ALL_SQUARES[square as usize]).0
}

/// `chess::get_bishop_rays`: the other squares of the two diagonals.
#[verifier::external_body]
pub(crate) fn bishop_rays(square: u8) -> (r: u64)
    requires
        square < 64,
    ensures
        forall|t: int| 0 <= t < 64 ==> has_bit(r, t) == bishop_reach(square as int, t),
{
    chess::get_bishop_rays(chess::ALL_SQUARES[square as usize]).0
}

/// `chess::get_pawn_attacks`: the capture squares of a pawn that lie in
/// `victims`.
#[verifier::external_body]
pub(crate) fn pawn_attacks(square: u8, black: bool, victims: u64) -> (r: u64)
    requires
        square < 64,
    ensures
        forall|t: int|
            0 <= t < 64 ==> has_bit(r, t) == (pawn_attack_reach(square as int, black, t) && has_bit(
                victims,
                t,
            )),
{
    let color = chess::ALL_COLORS[black as usize];
    chess::get_pawn_attacks(chess::ALL_SQUARES[square as usize], color, chess::BitBoard(victims)).0
}

/// `chess::get_pawn_moves`: the capture squares of a pawn that lie in
/// `blockers`, together with its pushes past `blockers`.
#[verifier::external_body]
pub(crate) fn pawn_moves(square: u8, black: bool, blockers: u64) -> (r: u64)
    requires
        square < 64,
    ensures
        forall|t: int|
            0 <= t < 64 ==> has_bit(r, t) == ((pawn_attack_reach(square as int, black, t) && has_bit(
                blockers,
                t,
            )) || pawn_push_reach(square as int, black, squares_in(blockers), t)),
{
    let color = chess::ALL_COLORS[black as usize];
    chess::get_pawn_moves(chess::ALL_SQUARES[square as usize], color, chess::BitBoard(blockers)).0
}

/// `chess::get_adjacent_files`: every square of the files next to `file`.
#[verifier::external_body]
pub(crate) fn adjacent_files(file: u8) -> (r: u64)
    requires
        file < 8,
    ensures
        forall|t: int| 0 <= t < 64 ==> has_bit(r, t) == beside_file(file as int, t),
{
    chess::get_adjacent_files(chess::ALL_FILES[file as usize]).0
}

} // verus!
