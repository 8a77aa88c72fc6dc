//! The static evaluator.
//!
//! A position is scored for the side that is not to move ("me") against the
//! side that is ("them"): material, threats, mobility, centralisation,
//! piece-square tables and pawn structure, every term of which changes sign
//! when the two sides trade places.

use crate::attacks::{
    adjacent_files, beside_file, bishop_rays, bishop_reach, either, file_of, has_bit, king_moves,
    king_reach, knight_moves, knight_reach, lemma_empty_set, pawn_attack_reach, pawn_attacks,
    pawn_moves, pawn_push_reach, rank_of, rook_rays, rook_reach, squares_in, test_bit, with_bit,
};
use crate::board::{
    black_to_move, board_state, checking_of, legal_moves, legal_moves_of,
    lemma_pass_keeps_counts, null_move,
    passed_state, playable, status, status_of, BoardState, BoardStatus,
};
use crate::constants::{
    piece_value, table_entry, table_value, value, CENTER_WEIGHT, CHECKMATE, DOUBLED_PAWN,
    ISOLATED_PAWN, MOVE_LIMIT, MOVE_WEIGHT, POINT, QUEEN,
};
use crate::search::transposition::{placement, placement_of};
use vstd::prelude::*;

verus! {

/// No piece contributes more than this to a score, in magnitude.
pub const PIECE_LIMIT: i64 = 65_180;

/// No static score is larger than this in magnitude.
pub const STATIC_LIMIT: i64 = 4_184_560;

/// Whether a code stands for a piece.
pub open spec fn occupied(code: u8) -> bool {
    1 <= code <= 12
}

/// Whether a piece's code is that of a black piece.
pub open spec fn is_black(code: u8) -> bool {
    code >= 7
}

/// The kind of a piece, 0 for a pawn up to 5 for a king.
pub open spec fn kind_of(code: u8) -> int {
    if code >= 7 {
        code - 7
    } else {
        code - 1
    }
}

/// Whether a square holds a piece of the given colour.
pub open spec fn holds(squares: Seq<u8>, sq: int, black: bool) -> bool {
    occupied(squares[sq]) && is_black(squares[sq]) == black
}

/// Whether a square holds a pawn of either colour.
pub open spec fn holds_pawn(squares: Seq<u8>, sq: int) -> bool {
    squares[sq] == 1 || squares[sq] == 7
}

/// The squares that hold a piece of the given colour.
pub open spec fn squares_of(squares: Seq<u8>, black: bool) -> Set<int> {
    Set::new(|t: int| 0 <= t < 64 && holds(squares, t, black))
}

/// The sum of `f(0)`, ..., `f(n - 1)`.
pub open spec fn sum_below(f: spec_fn(int) -> int, n: int) -> int
    decreases n,
{
    if n <= 0 {
        0
    } else {
        sum_below(f, n - 1) + f(n - 1)
    }
}

/// Whether a piece on `from` bears on `to`: a pawn by its captures, a knight
/// and a king by their moves, a bishop and a rook along their rays on an
/// empty board, a queen along the rays of both.
pub open spec fn threat_reach(kind: int, from: int, black: bool, to: int) -> bool {
    if kind == 0 {
        pawn_attack_reach(from, black, to)
    } else if kind == 1 {
        knight_reach(from, to)
    } else if kind == 2 {
        bishop_reach(from, to)
    } else if kind == 3 {
        rook_reach(from, to)
    } else if kind == 4 {
        rook_reach(from, to) || bishop_reach(from, to)
    } else {
        king_reach(from, to)
    }
}

/// What the piece on `from` gains from `to`: the value of an enemy piece
/// there that it bears on.
pub open spec fn threat_term(squares: Seq<u8>, from: int, to: int) -> int {
    let code = squares[from];
    if threat_reach(kind_of(code), from, is_black(code), to) && holds(
        squares,
        to,
        !is_black(code),
    ) {
        piece_value(kind_of(squares[to]))
    } else {
        0
    }
}

pub open spec fn threat_fn(squares: Seq<u8>, from: int) -> spec_fn(int) -> int {
    |to: int| threat_term(squares, from, to)
}

/// Whether `to` counts towards the mobility of the piece on `from`: a pawn's
/// captures of enemy pieces and its pushes past them, and for the other
/// pieces the squares that they bear on (see [`threat_reach`]).
pub open spec fn mobility_reach(squares: Seq<u8>, from: int, to: int) -> bool {
    let code = squares[from];
    let kind = kind_of(code);
    let black = is_black(code);
    if kind == 0 {
        (pawn_attack_reach(from, black, to) && holds(squares, to, !black)) || pawn_push_reach(
            from,
            black,
            squares_of(squares, !black),
            to,
        )
    } else if kind == 1 {
        knight_reach(from, to)
    } else if kind == 2 {
        bishop_reach(from, to)
    } else if kind == 3 {
        rook_reach(from, to)
    } else if kind == 4 {
        bishop_reach(from, to) || rook_reach(from, to)
    } else {
        king_reach(from, to)
    }
}

pub open spec fn mobility_term(squares: Seq<u8>, from: int, to: int) -> int {
    if mobility_reach(squares, from, to) {
        1
    } else {
        0
    }
}

pub open spec fn mobility_fn(squares: Seq<u8>, from: int) -> spec_fn(int) -> int {
    |to: int| mobility_term(squares, from, to)
}

/// Steps from a square to the nearest of the four centre squares, counted
/// along ranks and files.
pub open spec fn center_distance(sq: int) -> int {
    let f = file_of(sq);
    let r = rank_of(sq);
    (if f <= 3 {
        3 - f
    } else {
        f - 4
    }) + (if r <= 3 {
        3 - r
    } else {
        r - 4
    })
}

/// Whether the pawn on `from` has no pawn of either colour on a neighbouring
/// file.
pub open spec fn isolated(squares: Seq<u8>, from: int) -> bool {
    forall|t: int| 0 <= t < 64 && beside_file(file_of(from), t) ==> !holds_pawn(squares, t)
}

/// What the piece on `from` is worth to its owner: its value, its threats,
/// its mobility, its closeness to the centre, its piece-square table entry
/// at `index`, and the bonus of an isolated pawn.
pub open spec fn piece_term(squares: Seq<u8>, from: int, index: int) -> int {
    let kind = kind_of(squares[from]);
    piece_value(kind) + sum_below(threat_fn(squares, from), 64) + POINT * sum_below(
        mobility_fn(squares, from),
        64,
    ) - CENTER_WEIGHT * center_distance(from) + table_entry(kind, index) + if kind == 0
        && isolated(squares, from) {
        ISOLATED_PAWN as int
    } else {
        0
    }
}

/// What a square contributes to my score: the worth of my piece on it, or
/// the worth of their piece taken off. Their pieces read the piece-square
/// tables at the square rotated by half a turn.
pub open spec fn square_term(squares: Seq<u8>, me_black: bool, sq: int) -> int {
    if holds(squares, sq, me_black) {
        piece_term(squares, sq, sq)
    } else if holds(squares, sq, !me_black) {
        -piece_term(squares, sq, 63 - sq)
    } else {
        0
    }
}

pub open spec fn square_fn(squares: Seq<u8>, me_black: bool) -> spec_fn(int) -> int {
    |sq: int| square_term(squares, me_black, sq)
}

pub open spec fn pawn_on_rank_fn(squares: Seq<u8>, file: int, black: bool) -> spec_fn(int) -> int {
    |rank: int|
        if squares[rank * 8 + file] == (if black {
            7u8
        } else {
            1u8
        }) {
            1int
        } else {
            0int
        }
}

/// How many pawns of a colour stand on a file.
pub open spec fn pawns_on_file(squares: Seq<u8>, file: int, black: bool) -> int {
    sum_below(pawn_on_rank_fn(squares, file, black), 8)
}

/// The pawns beyond the first among `count` pawns on one file.
pub open spec fn extra_pawns(count: int) -> int {
    if count >= 2 {
        count - 1
    } else {
        0
    }
}

/// What a file contributes to my score: a penalty for each of my doubled
/// pawns, and as much gained for each of theirs.
pub open spec fn file_term(squares: Seq<u8>, me_black: bool, file: int) -> int {
    DOUBLED_PAWN * (extra_pawns(pawns_on_file(squares, file, !me_black)) - extra_pawns(
        pawns_on_file(squares, file, me_black),
    ))
}

pub open spec fn file_fn(squares: Seq<u8>, me_black: bool) -> spec_fn(int) -> int {
    |file: int| file_term(squares, me_black, file)
}

/// A legal-move count as it enters the score.
pub open spec fn capped(moves: int) -> int {
    if moves <= MOVE_LIMIT {
        moves
    } else {
        MOVE_LIMIT as int
    }
}

/// The static score of a position that is neither checkmate nor stalemate,
/// from the placement of the pieces, the side to move, and the number of
/// legal moves of the side to move (`their_moves`) and of the other side if
/// it were to move (`my_moves`).
pub open spec fn static_score_spec(
    squares: Seq<u8>,
    black_to_move: bool,
    their_moves: int,
    my_moves: int,
) -> int {
    sum_below(square_fn(squares, !black_to_move), 64) + sum_below(
        file_fn(squares, !black_to_move),
        8,
    ) + MOVE_WEIGHT * (capped(my_moves) - capped(their_moves))
}

/// The number of legal moves of the side to move.
pub open spec fn their_moves_of(s: BoardState) -> int {
    legal_moves_of(s).len() as int
}

/// The number of legal moves that the other side would have after a null
/// move, which is possible only while the side to move is not in check;
/// zero where it is.
pub open spec fn my_moves_of(s: BoardState) -> int {
    if checking_of(s) == 0 {
        legal_moves_of(passed_state(s)).len() as int
    } else {
        0
    }
}

/// The score of a position: minus [`CHECKMATE`] where the side to move is
/// mated, zero in a stalemate, and the static score otherwise.
pub open spec fn evaluate_spec(s: BoardState) -> int {
    match status_of(s) {
        BoardStatus::Checkmate => -CHECKMATE,
        BoardStatus::Stalemate => 0,
        BoardStatus::Ongoing => static_score_spec(
            placement_of(s),
            s.black_to_move,
            their_moves_of(s),
            my_moves_of(s),
        ),
    }
}

/// The bit set of the squares that hold a piece of the given colour.
pub fn color_set(squares: &[u8; 64], black: bool) -> (set: u64)
    ensures
        forall|t: int| 0 <= t < 64 ==> has_bit(set, t) == holds(squares@, t, black),
        squares_in(set) == squares_of(squares@, black),
{
    let mut set: u64 = 0;
    let mut sq: u8 = 0;
    proof {
        lemma_empty_set();
    }
    while sq < 64
        invariant
            sq <= 64,
            forall|t: int| 0 <= t < 64 ==> has_bit(set, t) == (t < sq && holds(squares@, t, black)),
        decreases 64 - sq,
    {
        let code = squares[sq as usize];
        if 1 <= code && code <= 12 && (code >= 7) == black {
            set = with_bit(set, sq);
        }
        sq = sq + 1;
    }
    assert(squares_in(set) =~= squares_of(squares@, black));
    set
}

/// Sums the values of the enemy pieces on the squares of `reach`.
fn threat_total(squares: &[u8; 64], from: u8, reach: u64) -> (total: i64)
    requires
        from < 64,
        forall|t: int|
            0 <= t < 64 ==> (has_bit(reach, t) && holds(squares@, t, !is_black(squares[from as int])))
                == (threat_reach(kind_of(squares[from as int]), from as int, is_black(squares[from as int]), t)
                && holds(squares@, t, !is_black(squares[from as int]))),
    ensures
        total == sum_below(threat_fn(squares@, from as int), 64),
        0 <= total <= 64 * QUEEN,
{
    let enemy_black = !(squares[from as usize] >= 7);
    let mut total: i64 = 0;
    let mut to: u8 = 0;
    while to < 64
        invariant
            to <= 64,
            from < 64,
            enemy_black == !is_black(squares[from as int]),
            total == sum_below(threat_fn(squares@, from as int), to as int),
            0 <= total <= to * QUEEN,
            forall|t: int|
                0 <= t < 64 ==> (has_bit(reach, t) && holds(squares@, t, enemy_black)) == (
                threat_reach(kind_of(squares[from as int]), from as int, is_black(squares[from as int]), t)
                    && holds(squares@, t, enemy_black)),
        decreases 64 - to,
    {
        let code = squares[to as usize];
        if test_bit(reach, to) && 1 <= code && code <= 12 && (code >= 7) == enemy_black {
            total = total + value(if code >= 7 {
                code - 7
            } else {
                code - 1
            });
        }
        to = to + 1;
    }
    total
}

/// Counts the squares of `reach`.
fn mobility_total(squares: &[u8; 64], from: u8, reach: u64) -> (total: i64)
    requires
        from < 64,
        forall|t: int| 0 <= t < 64 ==> has_bit(reach, t) == mobility_reach(squares@, from as int, t),
    ensures
        total == sum_below(mobility_fn(squares@, from as int), 64),
        0 <= total <= 64,
{
    let mut total: i64 = 0;
    let mut to: u8 = 0;
    while to < 64
        invariant
            to <= 64,
            total == sum_below(mobility_fn(squares@, from as int), to as int),
            0 <= total <= to,
            forall|t: int|
                0 <= t < 64 ==> has_bit(reach, t) == mobility_reach(squares@, from as int, t),
        decreases 64 - to,
    {
        if test_bit(reach, to) {
            total = total + 1;
        }
        to = to + 1;
    }
    total
}

/// Steps from a square to the centre.
fn center_steps(sq: u8) -> (steps: i64)
    requires
        sq < 64,
    ensures
        steps == center_distance(sq as int),
        0 <= steps <= 6,
{
    let f = sq % 8;
    let r = sq / 8;
    let by_file: i64 = if f <= 3 {
        (3 - f) as i64
    } else {
        (f - 4) as i64
    };
    let by_rank: i64 = if r <= 3 {
        (3 - r) as i64
    } else {
        (r - 4) as i64
    };
    by_file + by_rank
}

/// Whether no pawn stands on a file next to that of `from`.
fn is_isolated(squares: &[u8; 64], from: u8) -> (alone: bool)
    requires
        from < 64,
    ensures
        alone == isolated(squares@, from as int),
{
    let beside = adjacent_files(from % 8);
    let mut alone = true;
    let mut to: u8 = 0;
    while to < 64
        invariant
            to <= 64,
            from < 64,
            forall|t: int| 0 <= t < 64 ==> has_bit(beside, t) == beside_file(file_of(from as int), t),
            alone == (forall|t: int|
                0 <= t < to && beside_file(file_of(from as int), t) ==> !holds_pawn(squares@, t)),
        decreases 64 - to,
    {
        let code = squares[to as usize];
        if test_bit(beside, to) && (code == 1 || code == 7) {
            alone = false;
            assert(beside_file(file_of(from as int), to as int) && holds_pawn(squares@, to as int));
        }
        to = to + 1;
    }
    alone
}

/// The worth of the piece on `from` to its owner (see [`piece_term`]).
fn piece_score(squares: &[u8; 64], from: u8, index: u8) -> (score: i64)
    requires
        from < 64,
        index < 64,
        occupied(squares[from as int]),
    ensures
        score == piece_term(squares@, from as int, index as int),
        -PIECE_LIMIT <= score <= PIECE_LIMIT,
{
    let code = squares[from as usize];
    let black = code >= 7;
    let kind: u8 = if black {
        code - 7
    } else {
        code - 1
    };
    let victims = color_set(squares, !black);
    let attacked: u64 = if kind == 0 {
        pawn_attacks(from, black, victims)
    } else if kind == 1 {
        knight_moves(from)
    } else if kind == 2 {
        bishop_rays(from)
    } else if kind == 3 {
        rook_rays(from)
    } else if kind == 4 {
        either(rook_rays(from), bishop_rays(from))
    } else {
        king_moves(from)
    };
    let threats = threat_total(squares, from, attacked);
    let reach: u64 = if kind == 0 {
        pawn_moves(from, black, victims)
    } else if kind == 1 {
        knight_moves(from)
    } else if kind == 2 {
        bishop_rays(from)
    } else if kind == 3 {
        rook_rays(from)
    } else if kind == 4 {
        either(bishop_rays(from), rook_rays(from))
    } else {
        king_moves(from)
    };
    let mobility = mobility_total(squares, from, reach);
    let bonus: i64 = if kind == 0 && is_isolated(squares, from) {
        ISOLATED_PAWN
    } else {
        0
    };
    value(kind) + threats + POINT * mobility - CENTER_WEIGHT * center_steps(from) + table_value(
        kind,
        index,
    ) + bonus
}

/// Counts the pawns of a colour on a file.
fn count_file_pawns(squares: &[u8; 64], file: u8, black: bool) -> (count: i64)
    requires
        file < 8,
    ensures
        count == pawns_on_file(squares@, file as int, black),
        0 <= count <= 8,
{
    let pawn: u8 = if black {
        7
    } else {
        1
    };
    let mut count: i64 = 0;
    let mut rank: u8 = 0;
    while rank < 8
        invariant
            rank <= 8,
            file < 8,
            pawn == (if black {
                7u8
            } else {
                1u8
            }),
            count == sum_below(pawn_on_rank_fn(squares@, file as int, black), rank as int),
            0 <= count <= rank,
        decreases 8 - rank,
    {
        if squares[(rank * 8 + file) as usize] == pawn {
            count = count + 1;
        }
        rank = rank + 1;
    }
    count
}

/// The static score of a position (see [`static_score_spec`]).
pub fn static_score(
    squares: &[u8; 64],
    black_to_move: bool,
    their_moves: usize,
    my_moves: usize,
) -> (score: i64)
    ensures
        score == static_score_spec(squares@, black_to_move, their_moves as int, my_moves as int),
        -STATIC_LIMIT <= score <= STATIC_LIMIT,
{
    let me_black = !black_to_move;
    let mut pieces: i64 = 0;
    let mut sq: u8 = 0;
    while sq < 64
        invariant
            sq <= 64,
            pieces == sum_below(square_fn(squares@, me_black), sq as int),
            -sq * PIECE_LIMIT <= pieces <= sq * PIECE_LIMIT,
        decreases 64 - sq,
    {
        let code = squares[sq as usize];
        if 1 <= code && code <= 12 {
            if (code >= 7) == me_black {
                pieces = pieces + piece_score(squares, sq, sq);
            } else {
                pieces = pieces - piece_score(squares, sq, 63 - sq);
            }
        }
        sq = sq + 1;
    }
    let mut files: i64 = 0;
    let mut file: u8 = 0;
    while file < 8
        invariant
            file <= 8,
            files == sum_below(file_fn(squares@, me_black), file as int),
            -file * 7 * DOUBLED_PAWN <= files <= file * 7 * DOUBLED_PAWN,
        decreases 8 - file,
    {
        let mine = count_file_pawns(squares, file, me_black);
        let theirs = count_file_pawns(squares, file, !me_black);
        let my_extra: i64 = if mine >= 2 {
            mine - 1
        } else {
            0
        };
        let their_extra: i64 = if theirs >= 2 {
            theirs - 1
        } else {
            0
        };
        files = files + DOUBLED_PAWN * (their_extra - my_extra);
        file = file + 1;
    }
    let mine: i64 = if my_moves <= MOVE_LIMIT {
        my_moves as i64
    } else {
        MOVE_LIMIT as i64
    };
    let theirs: i64 = if their_moves <= MOVE_LIMIT {
        their_moves as i64
    } else {
        MOVE_LIMIT as i64
    };
    pieces + files + MOVE_WEIGHT * (mine - theirs)
}

/// Scores a board (see [`evaluate_spec`]).
pub fn evaluate(b: &chess::Board) -> (score: i64)
    requires
        playable(*b),
    ensures
        score == evaluate_spec(board_state(*b)),
        status_of(board_state(*b)) == BoardStatus::Checkmate ==> score == -CHECKMATE,
        status_of(board_state(*b)) == BoardStatus::Stalemate ==> score == 0,
        status_of(board_state(*b)) == BoardStatus::Ongoing ==> -CHECKMATE < score < CHECKMATE,
{
    match status(b) {
        BoardStatus::Checkmate => -CHECKMATE,
        BoardStatus::Stalemate => 0,
        BoardStatus::Ongoing => {
            let squares = placement(b);
            let their_moves = legal_moves(b).len();
            let my_moves = match null_move(b) {
                Some(passed) => {
                    proof {
                        lemma_pass_keeps_counts(board_state(*b), false, 64);
                        lemma_pass_keeps_counts(board_state(*b), true, 64);
                    }
                    legal_moves(&passed).len()
                },
                None => 0,
            };
            static_score(&squares, black_to_move(b), their_moves, my_moves)
        },
    }
}

/// A sum of `n` terms that all lie in `[low, high]` lies in
/// `[n * low, n * high]`.
pub proof fn lemma_sum_bounded(f: spec_fn(int) -> int, n: int, low: int, high: int)
    requires
        0 <= n,
        forall|i: int| 0 <= i < n ==> low <= #[trigger] f(i) <= high,
    ensures
        n * low <= sum_below(f, n) <= n * high,
    decreases n,
{
    if n > 0 {
        lemma_sum_bounded(f, n - 1, low, high);
        assert((n - 1) * low + low == n * low) by (nonlinear_arith);
        assert((n - 1) * high + high == n * high) by (nonlinear_arith);
        assert(low <= f(n - 1) <= high);
    } else {
        assert(n * low == 0 && n * high == 0) by (nonlinear_arith)
            requires
                n == 0,
        ;
    }
}

proof fn lemma_piece_term_bounded(squares: Seq<u8>, from: int, index: int)
    requires
        0 <= from < 64,
        0 <= index < 64,
    ensures
        -PIECE_LIMIT <= piece_term(squares, from, index) <= PIECE_LIMIT,
{
    lemma_sum_bounded(threat_fn(squares, from), 64, 0, QUEEN as int);
    lemma_sum_bounded(mobility_fn(squares, from), 64, 0, 1);
}

/// A static score never reaches the mate sentinels: it lies within
/// [`STATIC_LIMIT`] of zero, whatever the placement and the move counts.
pub proof fn lemma_static_score_bounded(
    squares: Seq<u8>,
    black_to_move: bool,
    their_moves: int,
    my_moves: int,
)
    requires
        0 <= their_moves,
        0 <= my_moves,
    ensures
        -STATIC_LIMIT <= static_score_spec(squares, black_to_move, their_moves, my_moves)
            <= STATIC_LIMIT,
        STATIC_LIMIT < CHECKMATE,
{
    let me_black = !black_to_move;
    assert forall|sq: int| 0 <= sq < 64 implies -PIECE_LIMIT <= #[trigger] square_fn(
        squares,
        me_black,
    )(sq) <= PIECE_LIMIT by {
        lemma_piece_term_bounded(squares, sq, sq);
        lemma_piece_term_bounded(squares, sq, 63 - sq);
    }
    lemma_sum_bounded(square_fn(squares, me_black), 64, -PIECE_LIMIT as int, PIECE_LIMIT as int);
    assert forall|file: int| 0 <= file < 8 implies -350 <= #[trigger] file_fn(squares, me_black)(
        file,
    ) <= 350 by {
        lemma_sum_bounded(pawn_on_rank_fn(squares, file, me_black), 8, 0, 1);
        lemma_sum_bounded(pawn_on_rank_fn(squares, file, !me_black), 8, 0, 1);
    }
    lemma_sum_bounded(file_fn(squares, me_black), 8, -350, 350);
}

/// An evaluation lies between the mate sentinels, and strictly inside them
/// unless the side to move is mated.
pub proof fn lemma_evaluation_bounded(s: BoardState)
    ensures
        -CHECKMATE <= evaluate_spec(s) < CHECKMATE,
        status_of(s) != BoardStatus::Checkmate ==> -STATIC_LIMIT <= evaluate_spec(s)
            <= STATIC_LIMIT,
{
    lemma_static_score_bounded(
        placement_of(s),
        s.black_to_move,
        their_moves_of(s),
        my_moves_of(s),
    );
}

} // verus!
