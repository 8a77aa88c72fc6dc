//! The move orderer: captures first, grouped by the kind of the capturing
//! piece, then the rest in the order in which they were generated.
//!
//! A move counts as a capture when its destination holds a piece of the side
//! that is not to move. In a checkmate the moves of the checking pieces come
//! right after the captures; a mated side has no legal move, so on the legal
//! moves of a position that group is always empty.

use crate::attacks::{has_bit, test_bit};
use crate::board::{
    black_to_move, board_state, checking, checking_of, playable, status, status_of, BoardStatus,
    Move,
};
use crate::search::evaluation::{holds, kind_of, occupied};
use crate::search::transposition::{placement, placement_of};
use vstd::prelude::*;

verus! {

/// Number of priority groups.
pub const GROUPS: u8 = 8;

/// The rank of a capturing piece's kind among the captures: pawn, bishop,
/// knight, rook, queen, king.
pub open spec fn capture_rank(kind: int) -> int {
    if kind == 0 {
        0
    } else if kind == 2 {
        1
    } else if kind == 1 {
        2
    } else {
        kind
    }
}

/// Whether a move takes a piece of the side that is not to move.
pub open spec fn is_capture(squares: Seq<u8>, black_to_move: bool, m: Move) -> bool {
    m.source < 64 && m.dest < 64 && occupied(squares[m.source as int]) && holds(
        squares,
        m.dest as int,
        !black_to_move,
    )
}

/// The priority group of a move: 0 to 5 for a capture, by the capturing
/// piece; 6 for a move of a checking piece in a checkmate; 7 for the rest.
pub open spec fn group_of(
    squares: Seq<u8>,
    black_to_move: bool,
    checkmate: bool,
    checking: u64,
    m: Move,
) -> int {
    if is_capture(squares, black_to_move, m) {
        capture_rank(kind_of(squares[m.source as int]))
    } else if checkmate && m.source < 64 && has_bit(checking, m.source as int) {
        6
    } else {
        7
    }
}

/// The moves of one group among the first `n` moves, in their order.
pub open spec fn select(
    squares: Seq<u8>,
    black_to_move: bool,
    checkmate: bool,
    checking: u64,
    moves: Seq<Move>,
    group: int,
    n: int,
) -> Seq<Move>
    decreases n,
{
    if n <= 0 {
        Seq::empty()
    } else {
        let before = select(squares, black_to_move, checkmate, checking, moves, group, n - 1);
        if group_of(squares, black_to_move, checkmate, checking, moves[n - 1]) == group {
            before.push(moves[n - 1])
        } else {
            before
        }
    }
}

/// The groups below `group` among the first `n` moves, one after the other.
pub open spec fn groups_below(
    squares: Seq<u8>,
    black_to_move: bool,
    checkmate: bool,
    checking: u64,
    moves: Seq<Move>,
    group: int,
    n: int,
) -> Seq<Move>
    decreases group,
{
    if group <= 0 {
        Seq::empty()
    } else {
        groups_below(squares, black_to_move, checkmate, checking, moves, group - 1, n) + select(
            squares,
            black_to_move,
            checkmate,
            checking,
            moves,
            group - 1,
            n,
        )
    }
}

/// The moves in search order: all eight groups, one after the other.
pub open spec fn ordered(
    squares: Seq<u8>,
    black_to_move: bool,
    checkmate: bool,
    checking: u64,
    moves: Seq<Move>,
) -> Seq<Move> {
    groups_below(
        squares,
        black_to_move,
        checkmate,
        checking,
        moves,
        GROUPS as int,
        moves.len() as int,
    )
}

/// The group of a move (see [`group_of`]).
pub fn move_group(
    squares: &[u8; 64],
    black_to_move: bool,
    checkmate: bool,
    checking: u64,
    m: Move,
) -> (group: u8)
    ensures
        group == group_of(squares@, black_to_move, checkmate, checking, m),
        group < GROUPS,
{
    if m.source < 64 && m.dest < 64 {
        let mover = squares[m.source as usize];
        let taken = squares[m.dest as usize];
        if 1 <= mover && mover <= 12 && 1 <= taken && taken <= 12 && (taken >= 7)
            != black_to_move {
            let kind = if mover >= 7 {
                mover - 7
            } else {
                mover - 1
            };
            return if kind == 0 {
                0
            } else if kind == 2 {
                1
            } else if kind == 1 {
                2
            } else {
                kind
            };
        }
    }
    if checkmate && m.source < 64 && test_bit(checking, m.source) {
        6
    } else {
        7
    }
}

/// Appends to `out` the moves of one group, in their order.
fn append_group(
    squares: &[u8; 64],
    black_to_move: bool,
    checkmate: bool,
    checking: u64,
    moves: &Vec<Move>,
    group: u8,
    out: &mut Vec<Move>,
)
    ensures
        final(out)@ == old(out)@ + select(
            squares@,
            black_to_move,
            checkmate,
            checking,
            moves@,
            group as int,
            moves.len() as int,
        ),
{
    let ghost start = out@;
    let mut i: usize = 0;
    while i < moves.len()
        invariant
            i <= moves.len(),
            out@ == start + select(
                squares@,
                black_to_move,
                checkmate,
                checking,
                moves@,
                group as int,
                i as int,
            ),
        decreases moves.len() - i,
    {
        let m = moves[i];
        if move_group(squares, black_to_move, checkmate, checking, m) == group {
            out.push(m);
            assert(out@ =~= start + select(
                squares@,
                black_to_move,
                checkmate,
                checking,
                moves@,
                group as int,
                i + 1,
            ));
        }
        i = i + 1;
    }
}

/// The captures among `moves`, grouped by capturing piece: the first six
/// groups.
pub fn mvvlva(squares: &[u8; 64], black_to_move: bool, moves: &Vec<Move>) -> (captures: Vec<Move>)
    ensures
        captures@ == groups_below(squares@, black_to_move, false, 0, moves@, 6, moves.len() as int),
{
    let mut captures: Vec<Move> = Vec::new();
    let mut group: u8 = 0;
    while group < 6
        invariant
            group <= 6,
            captures@ == groups_below(
                squares@,
                black_to_move,
                false,
                0,
                moves@,
                group as int,
                moves.len() as int,
            ),
        decreases 6 - group,
    {
        append_group(squares, black_to_move, false, 0, moves, group, &mut captures);
        group = group + 1;
    }
    captures
}

/// Whether a move is a capture does not depend on checks, so the capture
/// groups are the same whatever the check information.
pub proof fn lemma_captures_ignore_checks(
    squares: Seq<u8>,
    black_to_move: bool,
    checkmate: bool,
    checking: u64,
    moves: Seq<Move>,
    group: int,
)
    requires
        0 <= group <= 6,
    ensures
        groups_below(squares, black_to_move, checkmate, checking, moves, group, moves.len() as int)
            == groups_below(squares, black_to_move, false, 0, moves, group, moves.len() as int),
    decreases group,
{
    if group > 0 {
        lemma_captures_ignore_checks(squares, black_to_move, checkmate, checking, moves, group - 1);
        lemma_capture_group_ignores_checks(
            squares,
            black_to_move,
            checkmate,
            checking,
            moves,
            group - 1,
            moves.len() as int,
        );
    }
}

proof fn lemma_capture_group_ignores_checks(
    squares: Seq<u8>,
    black_to_move: bool,
    checkmate: bool,
    checking: u64,
    moves: Seq<Move>,
    group: int,
    n: int,
)
    requires
        0 <= group < 6,
    ensures
        select(squares, black_to_move, checkmate, checking, moves, group, n) == select(
            squares,
            black_to_move,
            false,
            0,
            moves,
            group,
            n,
        ),
    decreases n,
{
    if n > 0 {
        lemma_capture_group_ignores_checks(
            squares,
            black_to_move,
            checkmate,
            checking,
            moves,
            group,
            n - 1,
        );
    }
}

/// Orders moves for the search from plain values: the placement, the side to
/// move, whether the position is a checkmate, and the checking pieces.
pub fn order_by_priority(
    squares: &[u8; 64],
    black_to_move: bool,
    checkmate: bool,
    checking: u64,
    moves: &Vec<Move>,
) -> (result: Vec<Move>)
    ensures
        result@ == ordered(squares@, black_to_move, checkmate, checking, moves@),
{
    let mut result = mvvlva(squares, black_to_move, moves);
    proof {
        lemma_captures_ignore_checks(squares@, black_to_move, checkmate, checking, moves@, 6);
    }
    if checkmate {
        append_group(squares, black_to_move, checkmate, checking, moves, 6, &mut result);
    } else {
        proof {
            lemma_group_empty_without_mate(
                squares@,
                black_to_move,
                checking,
                moves@,
                moves.len() as int,
            );
        }
    }
    assert(result@ =~= groups_below(
        squares@,
        black_to_move,
        checkmate,
        checking,
        moves@,
        7,
        moves.len() as int,
    ));
    append_group(squares, black_to_move, checkmate, checking, moves, 7, &mut result);
    assert(result@ == groups_below(
        squares@,
        black_to_move,
        checkmate,
        checking,
        moves@,
        8,
        moves.len() as int,
    ));
    result
}

proof fn lemma_group_empty_without_mate(
    squares: Seq<u8>,
    black_to_move: bool,
    checking: u64,
    moves: Seq<Move>,
    n: int,
)
    ensures
        select(squares, black_to_move, false, checking, moves, 6, n) == Seq::<Move>::empty(),
    decreases n,
{
    if n > 0 {
        lemma_group_empty_without_mate(squares, black_to_move, checking, moves, n - 1);
    }
}

/// Adding one move to the input adds it to exactly one group.
proof fn lemma_groups_step(
    squares: Seq<u8>,
    black_to_move: bool,
    checkmate: bool,
    checking: u64,
    moves: Seq<Move>,
    group: int,
    n: int,
)
    requires
        0 <= n < moves.len(),
        0 <= group <= 8,
    ensures
        groups_below(squares, black_to_move, checkmate, checking, moves, group, n + 1).to_multiset()
            == if group_of(squares, black_to_move, checkmate, checking, moves[n]) < group {
            groups_below(
                squares,
                black_to_move,
                checkmate,
                checking,
                moves,
                group,
                n,
            ).to_multiset().insert(moves[n])
        } else {
            groups_below(squares, black_to_move, checkmate, checking, moves, group, n).to_multiset()
        },
    decreases group,
{
    if group > 0 {
        lemma_groups_step(squares, black_to_move, checkmate, checking, moves, group - 1, n);
        let head0 = groups_below(squares, black_to_move, checkmate, checking, moves, group - 1, n);
        let head1 = groups_below(
            squares,
            black_to_move,
            checkmate,
            checking,
            moves,
            group - 1,
            n + 1,
        );
        let tail0 = select(squares, black_to_move, checkmate, checking, moves, group - 1, n);
        let tail1 = select(squares, black_to_move, checkmate, checking, moves, group - 1, n + 1);
        vstd::seq_lib::lemma_multiset_commutative(head0, tail0);
        vstd::seq_lib::lemma_multiset_commutative(head1, tail1);
        vstd::seq_lib::to_multiset_build(tail0, moves[n]);
        let g = group_of(squares, black_to_move, checkmate, checking, moves[n]);
        if g == group - 1 {
            assert(tail1 == tail0.push(moves[n]));
            assert(head1.to_multiset().add(tail1.to_multiset()) =~= head0.to_multiset().add(
                tail0.to_multiset(),
            ).insert(moves[n]));
        } else if g < group - 1 {
            assert(tail1 == tail0);
            assert(head1.to_multiset().add(tail1.to_multiset()) =~= head0.to_multiset().add(
                tail0.to_multiset(),
            ).insert(moves[n]));
        } else {
            assert(tail1 == tail0);
        }
    }
}

proof fn lemma_groups_of_nothing(
    squares: Seq<u8>,
    black_to_move: bool,
    checkmate: bool,
    checking: u64,
    moves: Seq<Move>,
    group: int,
)
    ensures
        groups_below(squares, black_to_move, checkmate, checking, moves, group, 0) == Seq::<
            Move,
        >::empty(),
    decreases group,
{
    if group > 0 {
        lemma_groups_of_nothing(squares, black_to_move, checkmate, checking, moves, group - 1);
        assert(groups_below(squares, black_to_move, checkmate, checking, moves, group, 0)
            =~= Seq::<Move>::empty());
    }
}

proof fn lemma_groups_hold_prefix(
    squares: Seq<u8>,
    black_to_move: bool,
    checkmate: bool,
    checking: u64,
    moves: Seq<Move>,
    n: int,
)
    requires
        0 <= n <= moves.len(),
    ensures
        groups_below(squares, black_to_move, checkmate, checking, moves, 8, n).to_multiset()
            == moves.take(n).to_multiset(),
    decreases n,
{
    if n == 0 {
        lemma_groups_of_nothing(squares, black_to_move, checkmate, checking, moves, 8);
        assert(moves.take(0) =~= Seq::<Move>::empty());
    } else {
        lemma_groups_hold_prefix(squares, black_to_move, checkmate, checking, moves, n - 1);
        lemma_groups_step(squares, black_to_move, checkmate, checking, moves, 8, n - 1);
        assert(moves.take(n) =~= moves.take(n - 1).push(moves[n - 1]));
        vstd::seq_lib::to_multiset_build(moves.take(n - 1), moves[n - 1]);
    }
}

/// Ordering only rearranges: the result holds every move of the input, each
/// as often as the input does.
pub proof fn lemma_ordered_is_permutation(
    squares: Seq<u8>,
    black_to_move: bool,
    checkmate: bool,
    checking: u64,
    moves: Seq<Move>,
)
    ensures
        ordered(squares, black_to_move, checkmate, checking, moves).to_multiset()
            == moves.to_multiset(),
        ordered(squares, black_to_move, checkmate, checking, moves).len() == moves.len(),
        forall|m: Move|
            ordered(squares, black_to_move, checkmate, checking, moves).contains(m)
                <==> moves.contains(m),
{
    lemma_groups_hold_prefix(
        squares,
        black_to_move,
        checkmate,
        checking,
        moves,
        moves.len() as int,
    );
    assert(moves.take(moves.len() as int) =~= moves);
    let result = ordered(squares, black_to_move, checkmate, checking, moves);
    vstd::seq_lib::to_multiset_len(result);
    vstd::seq_lib::to_multiset_len(moves);
    assert forall|m: Move| result.contains(m) <==> moves.contains(m) by {
        vstd::seq_lib::to_multiset_contains(result, m);
        vstd::seq_lib::to_multiset_contains(moves, m);
    }
}

/// The moves of a board in search order (see [`ordered`]).
pub open spec fn ordered_moves_of(s: crate::board::BoardState, moves: Seq<Move>) -> Seq<Move> {
    ordered(
        placement_of(s),
        s.black_to_move,
        status_of(s) == BoardStatus::Checkmate,
        checking_of(s),
        moves,
    )
}

/// Orders the moves of a board for the search.
pub fn order_moves(board: &chess::Board, moves: Vec<Move>) -> (result: Vec<Move>)
    requires
        playable(*board),
    ensures
        result@ == ordered_moves_of(board_state(*board), moves@),
{
    let squares = placement(board);
    let checkmate = match status(board) {
        BoardStatus::Checkmate => true,
        _ => false,
    };
    order_by_priority(&squares, black_to_move(board), checkmate, checking(board), &moves)
}

} // verus!
