//! The exhaustive search, and when pruning agrees with it.
//!
//! [`tree_value`] is plain negamax over the whole tree: the same leaves and
//! the same moves as [`search`], with no window, no cutoff and no cache.
//! The pruned search returns the same score wherever its cache answers no
//! lookup. A cache hit breaks the agreement: what a cutoff stored is a
//! bound, and a lookup returns it as if it were a value. At the root the
//! cutoff is safe whatever the cache holds: [`scan_through`] is the loop
//! that examines every move, and it ends as the loop with the cutoff does.

use crate::board::{
    board_state, checking_of, legal_moves, legal_moves_of, make_move, playable, state_after, status,
    status_of, BoardState, BoardStatus, Move,
};
use crate::constants::{CHECKMATE, POINT, SCORE_LIMIT};
use crate::search::evaluation::{evaluate, evaluate_spec, lemma_evaluation_bounded};
use crate::search::negamax::{
    before_move, child_outcome, greater, leaf_score, lemma_fallback_means_no_better_move,
    lemma_negamax_identity, lesser, mate_bound, scan, search, Progress,
};
use crate::search::ordering::{lemma_ordered_is_permutation, order_moves, ordered_moves_of};
use crate::search::transposition::{cached_score, placement_of, zobrist, TableEntry, TT};
use vstd::prelude::*;

verus! {

/// No leaf score of a position that is no checkmate is larger than this in
/// magnitude, down to the deepest ply.
pub const QUIET_LIMIT: i64 = 4_210_160;

/// The greatest of the negated values of the first `n` moves' positions, or
/// minus [`CHECKMATE`] where `n` is zero.
pub open spec fn replies_value(s: BoardState, depth: nat, ply: int, moves: Seq<Move>, n: int) -> int
    decreases depth, 0int, n,
{
    if n <= 0 || depth == 0 {
        -CHECKMATE as int
    } else {
        greater(
            replies_value(s, depth, ply, moves, n - 1),
            -tree_value(state_after(s, moves[n - 1]), (depth - 1) as nat, ply + 1),
        )
    }
}

/// The negamax value of a position to a fixed depth: the leaf score at
/// depth zero or when the game is over, and otherwise the greatest of the
/// negated values of the positions after each move.
pub open spec fn tree_value(s: BoardState, depth: nat, ply: int) -> int
    decreases depth, 1int, 0int,
{
    if depth == 0 || status_of(s) != BoardStatus::Ongoing {
        leaf_score(evaluate_spec(s), ply)
    } else {
        let moves = ordered_moves_of(s, legal_moves_of(s));
        replies_value(s, depth, ply, moves, moves.len() as int)
    }
}

/// Whether the pruned search of a node finds none of the positions that it
/// looks up in the cache.
pub open spec fn silent(
    keys: TT,
    s: BoardState,
    depth: nat,
    alpha: int,
    beta: int,
    ply: int,
    cache: Map<u64, TableEntry>,
) -> bool
    decreases depth, 1int, 0int,
{
    let upper = mate_bound(ply);
    let lower = -mate_bound(ply);
    let beta1 = lesser(beta, upper);
    let alpha1 = greater(alpha, lower);
    if (upper < beta && alpha >= upper) || (lower > alpha && beta1 <= lower) {
        true
    } else if cached_score(cache, zobrist(keys, s), depth as u8) is Some {
        false
    } else if depth == 0 || status_of(s) != BoardStatus::Ongoing {
        true
    } else {
        silent_from(keys, s, depth, ordered_moves_of(s, legal_moves_of(s)), 0, alpha1, beta1, ply, cache)
    }
}

/// Whether the loop over a node's moves, from move `i` on, finds none of the
/// positions that it looks up in the cache.
pub open spec fn silent_from(
    keys: TT,
    s: BoardState,
    depth: nat,
    moves: Seq<Move>,
    i: int,
    alpha: int,
    beta: int,
    ply: int,
    cache: Map<u64, TableEntry>,
) -> bool
    decreases depth, 0int, moves.len() - i,
{
    if i < 0 || i >= moves.len() || depth == 0 {
        true
    } else {
        let after = state_after(s, moves[i]);
        let child = search(false, keys, after, (depth - 1) as nat, -beta, -alpha, ply + 1, cache);
        let alpha1 = greater(alpha, -child.score);
        &&& silent(keys, after, (depth - 1) as nat, -beta, -alpha, ply + 1, cache)
        &&& alpha1 >= beta || silent_from(
            keys,
            s,
            depth,
            moves,
            i + 1,
            alpha1,
            beta,
            ply,
            child.cache,
        )
    }
}

/// Searches the whole tree below a board to a fixed depth (see
/// [`tree_value`]).
pub fn exhaustive(board: &chess::Board, depth: u8, ply: u8) -> (score: i64)
    requires
        playable(*board),
        depth + ply <= u8::MAX,
    ensures
        score == tree_value(board_state(*board), depth as nat, ply as int),
        -SCORE_LIMIT <= score <= SCORE_LIMIT,
    decreases depth,
{
    let ongoing = match status(board) {
        BoardStatus::Ongoing => true,
        _ => false,
    };
    if depth == 0 || !ongoing {
        return evaluate(board) + POINT - POINT * (ply as i64);
    }
    let ghost s = board_state(*board);
    let legal = legal_moves(board);
    let moves = order_moves(board, legal);
    proof {
        lemma_ordered_is_permutation(
            placement_of(s),
            s.black_to_move,
            status_of(s) == BoardStatus::Checkmate,
            checking_of(s),
            legal_moves_of(s),
        );
    }
    let mut best: i64 = -CHECKMATE;
    let mut i: usize = 0;
    while i < moves.len()
        invariant
            i <= moves.len(),
            depth > 0,
            depth + ply <= u8::MAX,
            s == board_state(*board),
            playable(*board),
            forall|j: int| 0 <= j < moves.len() ==> legal_moves_of(s).contains(#[trigger] moves[j]),
            best == replies_value(s, depth as nat, ply as int, moves@, i as int),
            -SCORE_LIMIT <= best <= SCORE_LIMIT,
        decreases moves.len() - i,
    {
        let child = make_move(board, moves[i]);
        let score = -exhaustive(&child, depth - 1, ply + 1);
        if score > best {
            best = score;
        }
        i = i + 1;
    }
    best
}

/// The greatest reply is at least each reply.
proof fn lemma_replies_dominate(
    s: BoardState,
    depth: nat,
    ply: int,
    moves: Seq<Move>,
    n: int,
    j: int,
)
    requires
        depth > 0,
        0 <= j < n,
    ensures
        replies_value(s, depth, ply, moves, n) >= -tree_value(
            state_after(s, moves[j]),
            (depth - 1) as nat,
            ply + 1,
        ),
    decreases n,
{
    if j < n - 1 {
        lemma_replies_dominate(s, depth, ply, moves, n - 1, j);
    }
}

/// The greatest reply only grows with more replies.
proof fn lemma_replies_grow(s: BoardState, depth: nat, ply: int, moves: Seq<Move>, i: int, n: int)
    requires
        depth > 0,
        0 <= i <= n,
    ensures
        replies_value(s, depth, ply, moves, n) >= replies_value(s, depth, ply, moves, i),
    decreases n - i,
{
    if i < n {
        lemma_replies_grow(s, depth, ply, moves, i, n - 1);
    }
}

/// The scores that a leaf at `ply` can have: an evaluation within
/// [`QUIET_LIMIT`], or the score of a mated side.
pub open spec fn leaf_range(score: int, ply: int) -> bool {
    ||| -QUIET_LIMIT <= score <= QUIET_LIMIT
    ||| score == -CHECKMATE + POINT - POINT * ply
}

/// The scores that a node at `ply` that examines its moves can have: an
/// evaluation, a mate sentinel, or the score of mating on the move.
pub open spec fn inner_range(score: int, ply: int) -> bool {
    ||| -QUIET_LIMIT <= score <= QUIET_LIMIT
    ||| score == -CHECKMATE
    ||| score == CHECKMATE
    ||| score == CHECKMATE + POINT * ply
}

pub open spec fn node_range(score: int, ply: int) -> bool {
    leaf_range(score, ply) || inner_range(score, ply)
}

/// How a score returned for a window relates to the exact value: equal
/// inside the window, and outside it a bound from the side on which it fell.
pub open spec fn consistent(x: int, v: int, alpha: int, beta: int) -> bool {
    &&& x <= alpha ==> v <= x
    &&& x >= beta ==> v >= x
    &&& alpha < x < beta ==> x == v
}

/// The scores of the exhaustive search: an evaluation, a mate sentinel, or
/// the score of a mate on the move.
pub proof fn lemma_tree_range(s: BoardState, depth: nat, ply: int)
    requires
        0 <= ply,
        ply + depth <= 255,
    ensures
        node_range(tree_value(s, depth, ply), ply),
        depth > 0 && status_of(s) == BoardStatus::Ongoing ==> inner_range(
            tree_value(s, depth, ply),
            ply,
        ),
    decreases depth, 1int, 0int,
{
    lemma_evaluation_bounded(s);
    if depth > 0 && status_of(s) == BoardStatus::Ongoing {
        let moves = ordered_moves_of(s, legal_moves_of(s));
        lemma_replies_range(s, depth, ply, moves, moves.len() as int);
    }
}

proof fn lemma_replies_range(s: BoardState, depth: nat, ply: int, moves: Seq<Move>, n: int)
    requires
        depth > 0,
        0 <= ply,
        ply + depth <= 255,
        0 <= n <= moves.len(),
    ensures
        inner_range(replies_value(s, depth, ply, moves, n), ply),
    decreases depth, 0int, n,
{
    if n > 0 {
        lemma_tree_range(state_after(s, moves[n - 1]), (depth - 1) as nat, ply + 1);
        lemma_replies_range(s, depth, ply, moves, n - 1);
    }
}

/// What the pruned search returns at a node while the cache answers no
/// lookup: a score consistent with the exact value for the window that the
/// mate bounds leave.
proof fn lemma_pruned_node(
    keys: TT,
    s: BoardState,
    depth: nat,
    alpha: int,
    beta: int,
    ply: int,
    cache: Map<u64, TableEntry>,
)
    requires
        0 <= ply,
        ply + depth <= 255,
        alpha < beta,
        alpha <= QUIET_LIMIT,
        -QUIET_LIMIT <= beta,
        silent(keys, s, depth, alpha, beta, ply, cache),
    ensures
        ({
            let x = search(false, keys, s, depth, alpha, beta, ply, cache).score;
            let v = tree_value(s, depth, ply);
            &&& node_range(x, ply)
            &&& node_range(v, ply)
            &&& consistent(
                x,
                v,
                greater(alpha, -mate_bound(ply)),
                lesser(beta, mate_bound(ply)),
            )
        }),
    decreases depth, 1int, 0int,
{
    lemma_evaluation_bounded(s);
    lemma_tree_range(s, depth, ply);
    if depth == 0 || status_of(s) != BoardStatus::Ongoing {
    } else {
        let moves = ordered_moves_of(s, legal_moves_of(s));
        let low = greater(alpha, -mate_bound(ply));
        let high = lesser(beta, mate_bound(ply));
        lemma_pruned_scan(keys, s, depth, moves, 0, low, low, high, ply, None, -CHECKMATE as int, cache);
    }
}

/// The loop invariant of the pruned search against the exhaustive one.
proof fn lemma_pruned_scan(
    keys: TT,
    s: BoardState,
    depth: nat,
    moves: Seq<Move>,
    i: int,
    start: int,
    alpha: int,
    beta: int,
    ply: int,
    best: Option<Move>,
    max: int,
    cache: Map<u64, TableEntry>,
)
    requires
        depth > 0,
        0 <= ply,
        ply + depth <= 255,
        0 <= i <= moves.len(),
        -mate_bound(ply) <= start <= QUIET_LIMIT,
        -QUIET_LIMIT <= beta <= mate_bound(ply),
        alpha < beta,
        alpha == greater(start, max),
        max == -CHECKMATE || -QUIET_LIMIT <= max <= QUIET_LIMIT,
        replies_value(s, depth, ply, moves, i) <= max,
        max > start ==> max <= replies_value(s, depth, ply, moves, i),
        silent_from(keys, s, depth, moves, i, alpha, beta, ply, cache),
    ensures
        ({
            let x = scan(false, keys, s, depth, moves, i, alpha, beta, ply, best, max, cache).score;
            let v = replies_value(s, depth, ply, moves, moves.len() as int);
            &&& inner_range(x, ply)
            &&& inner_range(v, ply)
            &&& consistent(x, v, start, beta)
        }),
    decreases depth, 0int, moves.len() - i,
{
    let n = moves.len() as int;
    let v = replies_value(s, depth, ply, moves, n);
    lemma_replies_range(s, depth, ply, moves, n);
    if i >= n {
    } else {
        let after = state_after(s, moves[i]);
        lemma_pruned_node(keys, after, (depth - 1) as nat, -beta, -alpha, ply + 1, cache);
        lemma_tree_range(after, (depth - 1) as nat, ply + 1);
        let child = search(false, keys, after, (depth - 1) as nat, -beta, -alpha, ply + 1, cache);
        let exact = -tree_value(after, (depth - 1) as nat, ply + 1);
        let score = -child.score;
        let best1 = if score > max {
            Some(moves[i])
        } else {
            best
        };
        let max1 = greater(score, max);
        let alpha1 = greater(alpha, score);
        lemma_replies_dominate(s, depth, ply, moves, n, i);
        lemma_replies_grow(s, depth, ply, moves, i + 1, n);
        assert((score >= beta && exact >= score) || (score <= alpha && exact <= score) || (alpha
            < score < beta && score == exact));
        if alpha1 >= beta {
        } else {
            lemma_pruned_scan(
                keys,
                s,
                depth,
                moves,
                i + 1,
                start,
                alpha1,
                beta,
                ply,
                best1,
                max1,
                child.cache,
            );
        }
    }
}

/// Cutoff safety: searched with the full window, and as long as the cache
/// answers no lookup, a position has the same score with the cutoff as the
/// exhaustive search gives it.
pub proof fn lemma_pruning_keeps_the_score(
    keys: TT,
    s: BoardState,
    depth: nat,
    cache: Map<u64, TableEntry>,
)
    requires
        depth <= 255,
        silent(keys, s, depth, -CHECKMATE as int, CHECKMATE as int, 0, cache),
    ensures
        search(false, keys, s, depth, -CHECKMATE as int, CHECKMATE as int, 0, cache).score
            == tree_value(s, depth, 0),
{
    lemma_pruned_node(keys, s, depth, -CHECKMATE as int, CHECKMATE as int, 0, cache);
}

/// A mate on the move is found: where a legal move mates, the exhaustive
/// search of the root scores [`CHECKMATE`], and so does the pruned search as
/// long as the cache answers no lookup.
pub proof fn lemma_mate_on_the_move(
    keys: TT,
    s: BoardState,
    depth: nat,
    m: Move,
    cache: Map<u64, TableEntry>,
)
    requires
        0 < depth <= 255,
        legal_moves_of(s).contains(m),
        status_of(state_after(s, m)) == BoardStatus::Checkmate,
        silent(keys, s, depth, -CHECKMATE as int, CHECKMATE as int, 0, cache),
    ensures
        tree_value(s, depth, 0) == CHECKMATE,
        search(false, keys, s, depth, -CHECKMATE as int, CHECKMATE as int, 0, cache).score
            == CHECKMATE,
{
    let moves = ordered_moves_of(s, legal_moves_of(s));
    lemma_ordered_is_permutation(
        placement_of(s),
        s.black_to_move,
        status_of(s) == BoardStatus::Checkmate,
        checking_of(s),
        legal_moves_of(s),
    );
    assert(moves.contains(m));
    let k = choose|k: int| 0 <= k < moves.len() && moves[k] == m;
    lemma_replies_dominate(s, depth, 0, moves, moves.len() as int, k);
    lemma_tree_range(s, depth, 0);
    lemma_pruning_keeps_the_score(keys, s, depth, cache);
}

/// At depth one the moves lead to leaves, which store nothing: the cache
/// stands as it stood when the loop reaches any move.
proof fn lemma_leaves_keep_the_cache(
    keys: TT,
    s: BoardState,
    moves: Seq<Move>,
    i: int,
    alpha: int,
    beta: int,
    ply: int,
    cache: Map<u64, TableEntry>,
)
    ensures
        before_move(false, keys, s, 1, moves, i, alpha, beta, ply, cache).1 == cache,
    decreases i,
{
    if i > 0 {
        lemma_leaves_keep_the_cache(keys, s, moves, i - 1, alpha, beta, ply, cache);
    }
}

/// At depth one an empty cache answers no lookup.
proof fn lemma_empty_cache_is_silent(
    keys: TT,
    s: BoardState,
    moves: Seq<Move>,
    i: int,
    alpha: int,
    beta: int,
    ply: int,
)
    requires
        0 <= i <= moves.len(),
    ensures
        silent_from(keys, s, 1, moves, i, alpha, beta, ply, Map::empty()),
    decreases moves.len() - i,
{
    if i < moves.len() {
        let child = search(
            false,
            keys,
            state_after(s, moves[i]),
            0,
            -beta,
            -alpha,
            ply + 1,
            Map::empty(),
        );
        let nothing = Map::<u64, TableEntry>::empty();
        let after = state_after(s, moves[i]);
        assert(!nothing.contains_key(zobrist(keys, after)));
        assert(cached_score(nothing, zobrist(keys, after), 0) is None);
        assert(silent(keys, after, 0, -beta, -alpha, ply + 1, nothing));
        assert(child.cache == nothing);
        lemma_empty_cache_is_silent(
            keys,
            s,
            moves,
            i + 1,
            greater(alpha, -child.score),
            beta,
            ply,
        );
    }
}

/// A mate on the move is played: searched to depth one from the root with
/// the full window and an empty cache, a position in which a legal move
/// mates scores [`CHECKMATE`], and the move selected is a legal move that
/// mates.
pub proof fn lemma_mating_move_is_selected(keys: TT, s: BoardState, m: Move)
    requires
        legal_moves_of(s).contains(m),
        status_of(state_after(s, m)) == BoardStatus::Checkmate,
    ensures
        ({
            let out = search(false, keys, s, 1, -CHECKMATE as int, CHECKMATE as int, 0, Map::empty());
            &&& out.score == CHECKMATE
            &&& !out.fallback
            &&& out.best matches Some(played) && legal_moves_of(s).contains(played) && status_of(
                state_after(s, played),
            ) == BoardStatus::Checkmate
        }),
{
    let cache = Map::<u64, TableEntry>::empty();
    let low = -CHECKMATE as int;
    let high = CHECKMATE as int;
    let moves = ordered_moves_of(s, legal_moves_of(s));
    lemma_ordered_is_permutation(
        placement_of(s),
        s.black_to_move,
        status_of(s) == BoardStatus::Checkmate,
        checking_of(s),
        legal_moves_of(s),
    );
    lemma_empty_cache_is_silent(keys, s, moves, 0, low, high, 0);
    lemma_mate_on_the_move(keys, s, 1, m, cache);
    lemma_fallback_means_no_better_move(false, keys, s, 1, low, high, 0, cache);
    lemma_negamax_identity(false, keys, s, 1, low, high, 0, cache);
    let out = search(false, keys, s, 1, low, high, 0, cache);
    let k = choose|k: int|
        0 <= k < moves.len() && out.best == Some(moves[k]) && out.score == -(
        #[trigger] child_outcome(false, keys, s, 1, moves, k, low, high, 0, cache)).score;
    lemma_leaves_keep_the_cache(keys, s, moves, k, low, high, 0, cache);
    lemma_evaluation_bounded(state_after(s, moves[k]));
    assert(moves.contains(moves[k]));
}

/// The loop over a node's moves with the cutoff taken out: every move is
/// examined, also after alpha has reached beta.
pub open spec fn scan_through(
    stop: bool,
    keys: TT,
    s: BoardState,
    depth: nat,
    moves: Seq<Move>,
    i: int,
    alpha: int,
    beta: int,
    ply: int,
    best: Option<Move>,
    max: int,
    cache: Map<u64, TableEntry>,
) -> Progress
    decreases moves.len() - i,
{
    if i < 0 || i >= moves.len() || depth == 0 {
        Progress { best, score: max, cache }
    } else {
        let child = search(
            stop,
            keys,
            state_after(s, moves[i]),
            (depth - 1) as nat,
            -beta,
            -alpha,
            ply + 1,
            cache,
        );
        let score = -child.score;
        let best1 = if score > max {
            Some(moves[i])
        } else {
            best
        };
        scan_through(
            stop,
            keys,
            s,
            depth,
            moves,
            i + 1,
            greater(alpha, score),
            beta,
            ply,
            best1,
            greater(score, max),
            child.cache,
        )
    }
}

/// Once alpha has reached the mate sentinel at the root, every further move
/// comes back at once from the mate bounds of its first ply, below the
/// score in hand and without touching the cache.
proof fn lemma_nothing_after_the_cutoff(
    stop: bool,
    keys: TT,
    s: BoardState,
    depth: nat,
    moves: Seq<Move>,
    i: int,
    alpha: int,
    best: Option<Move>,
    max: int,
    cache: Map<u64, TableEntry>,
)
    requires
        0 <= i <= moves.len(),
        alpha >= CHECKMATE,
        max >= CHECKMATE,
    ensures
        scan_through(
            stop,
            keys,
            s,
            depth,
            moves,
            i,
            alpha,
            CHECKMATE as int,
            0,
            best,
            max,
            cache,
        ) == (Progress { best, score: max, cache }),
    decreases moves.len() - i,
{
    if i < moves.len() && depth > 0 {
        lemma_nothing_after_the_cutoff(stop, keys, s, depth, moves, i + 1, alpha, best, max, cache);
    }
}

proof fn lemma_scan_through_agrees(
    stop: bool,
    keys: TT,
    s: BoardState,
    depth: nat,
    moves: Seq<Move>,
    i: int,
    alpha: int,
    best: Option<Move>,
    max: int,
    cache: Map<u64, TableEntry>,
)
    requires
        0 <= i <= moves.len(),
        alpha < CHECKMATE,
    ensures
        scan_through(stop, keys, s, depth, moves, i, alpha, CHECKMATE as int, 0, best, max, cache)
            == scan(stop, keys, s, depth, moves, i, alpha, CHECKMATE as int, 0, best, max, cache),
    decreases moves.len() - i,
{
    if i < moves.len() && depth > 0 {
        let child = search(
            stop,
            keys,
            state_after(s, moves[i]),
            (depth - 1) as nat,
            -CHECKMATE as int,
            -alpha,
            1,
            cache,
        );
        let score = -child.score;
        let best1 = if score > max {
            Some(moves[i])
        } else {
            best
        };
        let max1 = greater(score, max);
        let alpha1 = greater(alpha, score);
        if alpha1 >= CHECKMATE {
            lemma_nothing_after_the_cutoff(
                stop,
                keys,
                s,
                depth,
                moves,
                i + 1,
                alpha1,
                best1,
                max1,
                child.cache,
            );
        } else {
            lemma_scan_through_agrees(
                stop,
                keys,
                s,
                depth,
                moves,
                i + 1,
                alpha1,
                best1,
                max1,
                child.cache,
            );
        }
    }
}

/// The cutoff at the root is safe whatever the cache holds: with the full
/// window, the loop over the root's moves selects the same move, finds the
/// same score and leaves the same cache whether it ends when alpha reaches
/// beta or examines every move.
pub proof fn lemma_root_cutoff_changes_nothing(
    stop: bool,
    keys: TT,
    s: BoardState,
    depth: nat,
    moves: Seq<Move>,
    cache: Map<u64, TableEntry>,
)
    ensures
        scan_through(
            stop,
            keys,
            s,
            depth,
            moves,
            0,
            -CHECKMATE as int,
            CHECKMATE as int,
            0,
            None,
            -CHECKMATE as int,
            cache,
        ) == scan(
            stop,
            keys,
            s,
            depth,
            moves,
            0,
            -CHECKMATE as int,
            CHECKMATE as int,
            0,
            None,
            -CHECKMATE as int,
            cache,
        ),
{
    lemma_scan_through_agrees(
        stop,
        keys,
        s,
        depth,
        moves,
        0,
        -CHECKMATE as int,
        None,
        -CHECKMATE as int,
        cache,
    );
}

} // verus!
