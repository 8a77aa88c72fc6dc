//! The evaluator's symmetry: trading the two sides' places negates the
//! score.
//!
//! The mirror of a placement turns every piece into the other colour and
//! moves it to the vertically reflected square, so that each side gets the
//! other side's army as that side saw it. The side to move stays, and with
//! it the roles: what was "my" army is now "theirs".

use crate::attacks::{
    beside_file, bishop_reach, file_of, king_reach, knight_reach, pawn_attack_reach,
    pawn_push_reach, rank_of, rook_reach,
};
use crate::board::{status_of, BoardState, BoardStatus};
use crate::constants::{file_mirror, lemma_tables_file_symmetric, table_entry};
use crate::search::evaluation::{
    center_distance, evaluate_spec, file_fn, file_term, holds, holds_pawn, is_black, isolated,
    kind_of, mobility_fn, mobility_term, my_moves_of, occupied, pawn_on_rank_fn, pawns_on_file,
    piece_term, square_fn, square_term, squares_of, static_score_spec, sum_below, their_moves_of,
    threat_fn, threat_term,
};
use crate::search::transposition::placement_of;
use vstd::prelude::*;

verus! {

/// The square reflected across the middle of the board: a1 to a8, e2 to e7.
pub open spec fn flip(sq: int) -> int {
    (7 - sq / 8) * 8 + sq % 8
}

/// The code of the same piece in the other colour.
pub open spec fn swap_color(code: u8) -> u8 {
    if 1 <= code <= 6 {
        (code + 6) as u8
    } else if 7 <= code <= 12 {
        (code - 6) as u8
    } else {
        code
    }
}

/// The colour-mirrored placement.
pub open spec fn mirror(squares: Seq<u8>) -> Seq<u8> {
    Seq::new(64, |sq: int| swap_color(squares[flip(sq)]))
}

proof fn lemma_flip(a: int)
    requires
        0 <= a < 64,
    ensures
        0 <= flip(a) < 64,
        flip(flip(a)) == a,
        rank_of(flip(a)) == 7 - rank_of(a),
        file_of(flip(a)) == file_of(a),
        center_distance(flip(a)) == center_distance(a),
        63 - flip(a) == file_mirror(a),
        63 - a == file_mirror(flip(a)),
{
}

proof fn lemma_flip_reach(a: int, b: int)
    requires
        0 <= a < 64,
        0 <= b < 64,
    ensures
        knight_reach(flip(a), flip(b)) == knight_reach(a, b),
        king_reach(flip(a), flip(b)) == king_reach(a, b),
        rook_reach(flip(a), flip(b)) == rook_reach(a, b),
        bishop_reach(flip(a), flip(b)) == bishop_reach(a, b),
        pawn_attack_reach(flip(a), true, flip(b)) == pawn_attack_reach(a, false, b),
        pawn_attack_reach(flip(a), false, flip(b)) == pawn_attack_reach(a, true, b),
        forall|file: int| beside_file(file, flip(b)) == beside_file(file, b),
{
    lemma_flip(a);
    lemma_flip(b);
}

proof fn lemma_mirror_square(squares: Seq<u8>, a: int)
    requires
        squares.len() == 64,
        0 <= a < 64,
    ensures
        mirror(squares)[flip(a)] == swap_color(squares[a]),
        occupied(mirror(squares)[flip(a)]) == occupied(squares[a]),
        occupied(squares[a]) ==> kind_of(mirror(squares)[flip(a)]) == kind_of(squares[a]),
        occupied(squares[a]) ==> is_black(mirror(squares)[flip(a)]) == !is_black(squares[a]),
        forall|black: bool| holds(mirror(squares), flip(a), black) == holds(squares, a, !black),
        holds_pawn(mirror(squares), flip(a)) == holds_pawn(squares, a),
{
    lemma_flip(a);
}

/// The sum of a function whose terms are those of another, negated.
proof fn lemma_sum_negated(f: spec_fn(int) -> int, g: spec_fn(int) -> int, n: int)
    requires
        forall|i: int| 0 <= i < n ==> #[trigger] g(i) == -f(i),
    ensures
        sum_below(g, n) == -sum_below(f, n),
    decreases n,
{
    if n > 0 {
        lemma_sum_negated(f, g, n - 1);
    }
}

/// Eight consecutive terms of a sum.
proof fn lemma_sum_row(f: spec_fn(int) -> int, start: int)
    requires
        0 <= start,
    ensures
        sum_below(f, start + 8) == sum_below(f, start) + f(start) + f(start + 1) + f(start + 2)
            + f(start + 3) + f(start + 4) + f(start + 5) + f(start + 6) + f(start + 7),
{
    reveal_with_fuel(sum_below, 9);
}

/// A sum over the board, rank by rank.
proof fn lemma_sum_by_ranks(f: spec_fn(int) -> int, r: int)
    requires
        0 <= r < 8,
    ensures
        sum_below(f, 8 * r + 8) - sum_below(f, 8 * r) == f(8 * r) + f(8 * r + 1) + f(8 * r + 2)
            + f(8 * r + 3) + f(8 * r + 4) + f(8 * r + 5) + f(8 * r + 6) + f(8 * r + 7),
{
    lemma_sum_row(f, 8 * r);
}

/// One rank of a sum equals the reflected rank of the sum of the reflected
/// function.
proof fn lemma_rank_flipped(f: spec_fn(int) -> int, g: spec_fn(int) -> int, r: int, sign: int)
    requires
        0 <= r < 8,
        sign == 1 || sign == -1,
        forall|t: int| 0 <= t < 64 ==> g(flip(t)) == sign * #[trigger] f(t),
    ensures
        sum_below(g, 8 * (7 - r) + 8) - sum_below(g, 8 * (7 - r)) == sign * (sum_below(f, 8 * r + 8)
            - sum_below(f, 8 * r)),
{
    lemma_sum_by_ranks(f, r);
    lemma_sum_by_ranks(g, 7 - r);
    assert(flip(8 * r) == 8 * (7 - r));
    assert(flip(8 * r + 1) == 8 * (7 - r) + 1);
    assert(flip(8 * r + 2) == 8 * (7 - r) + 2);
    assert(flip(8 * r + 3) == 8 * (7 - r) + 3);
    assert(flip(8 * r + 4) == 8 * (7 - r) + 4);
    assert(flip(8 * r + 5) == 8 * (7 - r) + 5);
    assert(flip(8 * r + 6) == 8 * (7 - r) + 6);
    assert(flip(8 * r + 7) == 8 * (7 - r) + 7);
    assert(g(flip(8 * r)) == sign * f(8 * r));
    assert(g(flip(8 * r + 1)) == sign * f(8 * r + 1));
    assert(g(flip(8 * r + 2)) == sign * f(8 * r + 2));
    assert(g(flip(8 * r + 3)) == sign * f(8 * r + 3));
    assert(g(flip(8 * r + 4)) == sign * f(8 * r + 4));
    assert(g(flip(8 * r + 5)) == sign * f(8 * r + 5));
    assert(g(flip(8 * r + 6)) == sign * f(8 * r + 6));
    assert(g(flip(8 * r + 7)) == sign * f(8 * r + 7));
}

/// A sum over the board does not change when the board is reflected, up to
/// the sign that the reflection gives each term.
proof fn lemma_sum_flipped(f: spec_fn(int) -> int, g: spec_fn(int) -> int, sign: int)
    requires
        sign == 1 || sign == -1,
        forall|t: int| 0 <= t < 64 ==> g(flip(t)) == sign * #[trigger] f(t),
    ensures
        sum_below(g, 64) == sign * sum_below(f, 64),
{
    lemma_rank_flipped(f, g, 0, sign);
    lemma_rank_flipped(f, g, 1, sign);
    lemma_rank_flipped(f, g, 2, sign);
    lemma_rank_flipped(f, g, 3, sign);
    lemma_rank_flipped(f, g, 4, sign);
    lemma_rank_flipped(f, g, 5, sign);
    lemma_rank_flipped(f, g, 6, sign);
    lemma_rank_flipped(f, g, 7, sign);
    assert(sum_below(f, 0) == 0);
    assert(sum_below(g, 0) == 0);
}

/// A sum of eight terms read backwards.
proof fn lemma_sum_reversed(f: spec_fn(int) -> int, g: spec_fn(int) -> int)
    requires
        forall|i: int| 0 <= i < 8 ==> g(7 - i) == #[trigger] f(i),
    ensures
        sum_below(g, 8) == sum_below(f, 8),
{
    lemma_sum_row(f, 0);
    lemma_sum_row(g, 0);
    assert(sum_below(f, 0) == 0);
    assert(sum_below(g, 0) == 0);
    assert(g(7 - 0) == f(0));
    assert(g(7 - 1) == f(1));
    assert(g(7 - 2) == f(2));
    assert(g(7 - 3) == f(3));
    assert(g(7 - 4) == f(4));
    assert(g(7 - 5) == f(5));
    assert(g(7 - 6) == f(6));
    assert(g(7 - 7) == f(7));
}

proof fn lemma_threat_mirrored(squares: Seq<u8>, from: int, to: int)
    requires
        squares.len() == 64,
        0 <= from < 64,
        0 <= to < 64,
        occupied(squares[from]),
    ensures
        threat_term(mirror(squares), flip(from), flip(to)) == threat_term(squares, from, to),
{
    lemma_flip_reach(from, to);
    lemma_mirror_square(squares, from);
    lemma_mirror_square(squares, to);
}

proof fn lemma_push_mirrored(squares: Seq<u8>, from: int, to: int, black: bool)
    requires
        squares.len() == 64,
        0 <= from < 64,
        0 <= to < 64,
    ensures
        pawn_push_reach(flip(from), !black, squares_of(mirror(squares), black), flip(to))
            == pawn_push_reach(from, black, squares_of(squares, !black), to),
{
    lemma_flip(from);
    lemma_flip(to);
    lemma_mirror_square(squares, to);
    let ahead = if black {
        rank_of(from) - 1
    } else {
        rank_of(from) + 1
    };
    let mirrored_ahead = if !black {
        rank_of(flip(from)) - 1
    } else {
        rank_of(flip(from)) + 1
    };
    assert(mirrored_ahead == 7 - ahead);
    assert(squares_of(mirror(squares), black).contains(flip(to)) == squares_of(
        squares,
        !black,
    ).contains(to));
    if 0 <= ahead < 8 {
        let front = ahead * 8 + file_of(from);
        assert(0 <= front < 64);
        assert(flip(front) == mirrored_ahead * 8 + file_of(flip(from)));
        lemma_flip(front);
        lemma_mirror_square(squares, front);
        assert(squares_of(mirror(squares), black).contains(flip(front)) == squares_of(
            squares,
            !black,
        ).contains(front));
    }
}

proof fn lemma_mobility_mirrored(squares: Seq<u8>, from: int, to: int)
    requires
        squares.len() == 64,
        0 <= from < 64,
        0 <= to < 64,
        occupied(squares[from]),
    ensures
        mobility_term(mirror(squares), flip(from), flip(to)) == mobility_term(squares, from, to),
{
    lemma_flip_reach(from, to);
    lemma_mirror_square(squares, from);
    lemma_mirror_square(squares, to);
    let black = is_black(squares[from]);
    if kind_of(squares[from]) == 0 {
        lemma_push_mirrored(squares, from, to, black);
    }
}

proof fn lemma_isolated_mirrored(squares: Seq<u8>, from: int)
    requires
        squares.len() == 64,
        0 <= from < 64,
    ensures
        isolated(mirror(squares), flip(from)) == isolated(squares, from),
{
    lemma_flip(from);
    if isolated(squares, from) {
        assert forall|t: int| 0 <= t < 64 && beside_file(file_of(flip(from)), t) implies !holds_pawn(
            mirror(squares),
            t,
        ) by {
            lemma_flip(t);
            lemma_flip_reach(from, flip(t));
            lemma_mirror_square(squares, flip(t));
        }
    }
    if isolated(mirror(squares), flip(from)) {
        assert forall|t: int| 0 <= t < 64 && beside_file(file_of(from), t) implies !holds_pawn(
            squares,
            t,
        ) by {
            lemma_flip(t);
            lemma_flip_reach(from, t);
            lemma_mirror_square(squares, t);
        }
    }
}

/// A piece is worth to its owner what its mirror image is worth to its own,
/// at piece-square table indices that hold the same entry.
proof fn lemma_piece_mirrored(squares: Seq<u8>, from: int, index: int, mirrored_index: int)
    requires
        squares.len() == 64,
        0 <= from < 64,
        occupied(squares[from]),
        table_entry(kind_of(squares[from]), mirrored_index) == table_entry(
            kind_of(squares[from]),
            index,
        ),
    ensures
        piece_term(mirror(squares), flip(from), mirrored_index) == piece_term(squares, from, index),
{
    lemma_flip(from);
    lemma_mirror_square(squares, from);
    lemma_isolated_mirrored(squares, from);
    assert forall|t: int| 0 <= t < 64 implies threat_fn(mirror(squares), flip(from))(flip(t)) == 1
        * #[trigger] threat_fn(squares, from)(t) by {
        lemma_threat_mirrored(squares, from, t);
    }
    lemma_sum_flipped(threat_fn(squares, from), threat_fn(mirror(squares), flip(from)), 1);
    assert forall|t: int| 0 <= t < 64 implies mobility_fn(mirror(squares), flip(from))(flip(t))
        == 1 * #[trigger] mobility_fn(squares, from)(t) by {
        lemma_mobility_mirrored(squares, from, t);
    }
    lemma_sum_flipped(mobility_fn(squares, from), mobility_fn(mirror(squares), flip(from)), 1);
}

proof fn lemma_square_mirrored(squares: Seq<u8>, me_black: bool, sq: int)
    requires
        squares.len() == 64,
        0 <= sq < 64,
    ensures
        square_term(mirror(squares), me_black, flip(sq)) == -square_term(squares, me_black, sq),
{
    lemma_flip(sq);
    lemma_mirror_square(squares, sq);
    if occupied(squares[sq]) {
        let kind = kind_of(squares[sq]);
        if holds(squares, sq, me_black) {
            lemma_tables_file_symmetric(kind, sq);
            lemma_piece_mirrored(squares, sq, sq, 63 - flip(sq));
        } else {
            lemma_tables_file_symmetric(kind, flip(sq));
            lemma_piece_mirrored(squares, sq, 63 - sq, flip(sq));
        }
    }
}

proof fn lemma_file_mirrored(squares: Seq<u8>, me_black: bool, file: int)
    requires
        squares.len() == 64,
        0 <= file < 8,
    ensures
        file_term(mirror(squares), me_black, file) == -file_term(squares, me_black, file),
{
    assert forall|black: bool|
        pawns_on_file(mirror(squares), file, black) == pawns_on_file(squares, file, !black) by {
        let f = pawn_on_rank_fn(squares, file, !black);
        let g = pawn_on_rank_fn(mirror(squares), file, black);
        assert forall|rank: int| 0 <= rank < 8 implies g(7 - rank) == #[trigger] f(rank) by {
            lemma_flip(rank * 8 + file);
            lemma_mirror_square(squares, rank * 8 + file);
            assert(flip(rank * 8 + file) == (7 - rank) * 8 + file);
        }
        lemma_sum_reversed(f, g);
    }
}

/// The evaluator is antisymmetric: the colour-mirrored position, with the
/// two sides' move counts exchanged, has the negated static score.
pub proof fn lemma_mirror_negates_score(
    squares: Seq<u8>,
    black_to_move: bool,
    their_moves: int,
    my_moves: int,
)
    requires
        squares.len() == 64,
    ensures
        static_score_spec(mirror(squares), black_to_move, my_moves, their_moves)
            == -static_score_spec(squares, black_to_move, their_moves, my_moves),
{
    let me_black = !black_to_move;
    assert forall|t: int| 0 <= t < 64 implies square_fn(mirror(squares), me_black)(flip(t)) == -1
        * #[trigger] square_fn(squares, me_black)(t) by {
        lemma_square_mirrored(squares, me_black, t);
    }
    lemma_sum_flipped(square_fn(squares, me_black), square_fn(mirror(squares), me_black), -1);
    assert forall|file: int| 0 <= file < 8 implies #[trigger] file_fn(mirror(squares), me_black)(
        file,
    ) == -file_fn(squares, me_black)(file) by {
        lemma_file_mirrored(squares, me_black, file);
    }
    lemma_sum_negated(file_fn(squares, me_black), file_fn(mirror(squares), me_black), 8);
}

/// A position that is its own mirror image, with as many moves for one side
/// as for the other, scores zero.
pub proof fn lemma_symmetric_position_scores_zero(
    squares: Seq<u8>,
    black_to_move: bool,
    moves: int,
)
    requires
        squares.len() == 64,
        mirror(squares) == squares,
    ensures
        static_score_spec(squares, black_to_move, moves, moves) == 0,
{
    lemma_mirror_negates_score(squares, black_to_move, moves, moves);
}

/// Whether `t` is the colour-mirrored counterpart of `s`: the mirrored
/// placement with the same colour to move, in which the game goes on as it
/// does in `s`, each side with the moves that the other has in `s`.
pub open spec fn counterparts(s: BoardState, t: BoardState) -> bool {
    &&& placement_of(t) == mirror(placement_of(s))
    &&& t.black_to_move == s.black_to_move
    &&& status_of(s) == BoardStatus::Ongoing
    &&& status_of(t) == BoardStatus::Ongoing
    &&& their_moves_of(t) == my_moves_of(s)
    &&& my_moves_of(t) == their_moves_of(s)
}

/// Symmetry of the evaluation: a position and its colour-mirrored
/// counterpart have opposite scores.
pub proof fn lemma_counterparts_have_opposite_scores(s: BoardState, t: BoardState)
    requires
        counterparts(s, t),
    ensures
        evaluate_spec(t) == -evaluate_spec(s),
{
    lemma_mirror_negates_score(
        placement_of(s),
        s.black_to_move,
        their_moves_of(s),
        my_moves_of(s),
    );
}

} // verus!
