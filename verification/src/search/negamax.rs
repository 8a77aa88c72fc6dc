//! The search driver: fixed-depth negamax with alpha-beta pruning,
//! mate-distance pruning and a transposition cache.
//!
//! [`search`] says, as a function of its inputs, what a node of the search
//! returns and what it leaves in the cache; [`negamax`] computes it. Only
//! one thing is left to chance: the move that stands in for a best move
//! where no continuation was selected.

use crate::board::{
    board_state, checking_of, legal_moves, legal_moves_of, make_move, playable, state_after,
    status, status_of, BoardState, BoardStatus, Move,
};
use crate::chance::shuffle;
use crate::constants::{CHECKMATE, POINT, SCORE_LIMIT};
use crate::engine::Weakfish;
use crate::search::evaluation::{evaluate, evaluate_spec};
use crate::search::ordering::{lemma_ordered_is_permutation, order_moves, ordered_moves_of};
use crate::search::transposition::{
    cached_score, get, placement_of, put, valid_cache, zobrist, Bound, TableEntry, TT,
};
use std::collections::HashMap;
use vstd::prelude::*;

verus! {

/// What a node of the search returns and leaves behind.
pub struct Outcome {
    /// The move selected, if one was.
    pub best: Option<Move>,
    pub score: int,
    /// The cache after the node.
    pub cache: Map<u64, TableEntry>,
    /// Whether the node examined its moves and selected none, so that the
    /// move returned is drawn at random among the legal ones.
    pub fallback: bool,
}

/// The state of the loop over a node's moves.
pub struct Progress {
    pub best: Option<Move>,
    pub score: int,
    pub cache: Map<u64, TableEntry>,
}

/// The best score that a node at `ply` can still reach: a mate delivered at
/// this ply.
pub open spec fn mate_bound(ply: int) -> int {
    CHECKMATE - POINT * ply
}

/// The score of a leaf: its evaluation plus one point, less one point per
/// ply, so that the same evaluation is worth less the deeper it is found.
pub open spec fn leaf_score(evaluation: int, ply: int) -> int {
    evaluation + POINT - POINT * ply
}

pub open spec fn lesser(a: int, b: int) -> int {
    if a < b {
        a
    } else {
        b
    }
}

pub open spec fn greater(a: int, b: int) -> int {
    if a > b {
        a
    } else {
        b
    }
}

/// How a node's score relates to its window: at or below alpha it is an
/// upper bound, at or above beta a lower bound, and exact in between.
pub open spec fn bound_of(score: int, alpha: int, beta: int) -> Bound {
    if score <= alpha {
        Bound::Upper
    } else if score >= beta {
        Bound::Lower
    } else {
        Bound::Exact
    }
}

/// A node that returns at once, with no move and the cache untouched.
pub open spec fn settled(score: int, cache: Map<u64, TableEntry>) -> Outcome {
    Outcome { best: None, score, cache, fallback: false }
}

/// What the search returns at a node.
///
/// In this order: a stopped search returns zero; a window that no mate at
/// this ply can reach returns the mate bound; a position that the cache
/// answers for returns the cached score (see
/// [`crate::search::transposition::ANSWER_ANY_DEPTH`]); a leaf (depth zero,
/// or a finished game) returns its leaf score; any other node examines its
/// moves in search order and stores its score in the cache.
pub open spec fn search(
    stop: bool,
    keys: TT,
    s: BoardState,
    depth: nat,
    alpha: int,
    beta: int,
    ply: int,
    cache: Map<u64, TableEntry>,
) -> Outcome
    decreases depth, 1int, 0int,
{
    let upper = mate_bound(ply);
    let lower = -mate_bound(ply);
    let beta1 = lesser(beta, upper);
    let alpha1 = greater(alpha, lower);
    let hash = zobrist(keys, s);
    if stop {
        settled(0, cache)
    } else if upper < beta && alpha >= upper {
        settled(upper, cache)
    } else if lower > alpha && beta1 <= lower {
        settled(lower, cache)
    } else if cached_score(cache, hash, depth as u8) is Some {
        settled(cached_score(cache, hash, depth as u8).unwrap() as int, cache)
    } else if depth == 0 || status_of(s) != BoardStatus::Ongoing {
        settled(leaf_score(evaluate_spec(s), ply), cache)
    } else {
        let moves = ordered_moves_of(s, legal_moves_of(s));
        let done = scan(stop, keys, s, depth, moves, 0, alpha1, beta1, ply, None, -CHECKMATE, cache);
        Outcome {
            best: done.best,
            score: done.score,
            cache: done.cache.insert(
                hash,
                TableEntry {
                    depth: depth as u8,
                    score: done.score as i64,
                    age: 0,
                    bound: bound_of(done.score, alpha1, beta1),
                },
            ),
            fallback: done.best is None,
        }
    }
}

/// The loop over a node's moves, from move `i` on.
///
/// Each move is searched one ply deeper with the window negated and
/// swapped, and its score negated. The first move with the strictly
/// greatest score is the best one; alpha rises to the greatest score; the
/// loop ends once alpha reaches beta.
pub open spec fn scan(
    stop: bool,
    keys: TT,
    s: BoardState,
    depth: nat,
    moves: Seq<Move>,
    i: int,
    alpha: int,
    beta: int,
    ply: int,
    best: Option<Move>,
    max: int,
    cache: Map<u64, TableEntry>,
) -> Progress
    decreases depth, 0int, moves.len() - i,
{
    if i < 0 || i >= moves.len() || depth == 0 {
        Progress { best, score: max, cache }
    } else {
        let child = search(
            stop,
            keys,
            state_after(s, moves[i]),
            (depth - 1) as nat,
            -beta,
            -alpha,
            ply + 1,
            cache,
        );
        let score = -child.score;
        let best1 = if score > max {
            Some(moves[i])
        } else {
            best
        };
        let max1 = greater(score, max);
        let alpha1 = greater(alpha, score);
        if alpha1 >= beta {
            Progress { best: best1, score: max1, cache: child.cache }
        } else {
            scan(stop, keys, s, depth, moves, i + 1, alpha1, beta, ply, best1, max1, child.cache)
        }
    }
}

/// Searches a position to a fixed depth (see [`search`]).
///
/// The board must be playable, as every board is that was read by
/// [`crate::engine::read_position`], made so by
/// [`crate::engine::accept_board`], or reached from one by legal moves. `turn_multiplier` is 1 or -1 and changes sign
/// with each ply; it is carried along and decides nothing.
///
/// A stopped search returns no move and the score zero, which means
/// nothing: the caller asks the flag before it acts on a result. The cache
/// belongs to the caller and is valid for one key table only. Every node
/// that examines its moves is stored when it is done, also after a cutoff.
///
/// Score and cache are fixed by the arguments, and so is the move wherever
/// the search selected one. Where it selected none among the moves it
/// examined, the move returned is a legal move drawn at random.
pub fn negamax(
    weakfish: &Weakfish,
    board: &chess::Board,
    depth: u8,
    alpha: i64,
    beta: i64,
    turn_multiplier: i8,
    ply: u8,
    table: &TT,
    hashmap: &mut HashMap<u64, TableEntry>,
) -> (result: (Option<Move>, i64))
    requires
        playable(*board),
        depth + ply <= u8::MAX,
        -SCORE_LIMIT <= alpha <= SCORE_LIMIT,
        -SCORE_LIMIT <= beta <= SCORE_LIMIT,
        turn_multiplier == 1 || turn_multiplier == -1,
        valid_cache(old(hashmap)@),
    ensures
        ({
            let out = search(
                weakfish.is_interruption,
                *table,
                board_state(*board),
                depth as nat,
                alpha as int,
                beta as int,
                ply as int,
                old(hashmap)@,
            );
            &&& result.1 == out.score
            &&& final(hashmap)@ == out.cache
            &&& !out.fallback ==> result.0 == out.best
            &&& out.fallback ==> result.0 is Some
        }),
        result.0 matches Some(m) ==> m.well_formed() && legal_moves_of(
            board_state(*board),
        ).contains(m),
        valid_cache(final(hashmap)@),
        -SCORE_LIMIT <= result.1 <= SCORE_LIMIT,
    decreases depth,
{
    if weakfish.is_interruption {
        return (None, 0);
    }
    let mut alpha = alpha;
    let mut beta = beta;
    let upper = CHECKMATE - POINT * (ply as i64);
    if upper < beta {
        beta = upper;
        if alpha >= upper {
            return (None, upper);
        }
    }
    let lower = -CHECKMATE + POINT * (ply as i64);
    if lower > alpha {
        alpha = lower;
        if beta <= lower {
            return (None, lower);
        }
    }
    let hash = table.hash(board);
    match get(hashmap, hash, depth) {
        Some(score) => {
            return (None, score);
        },
        None => {},
    }
    let ongoing = match status(board) {
        BoardStatus::Ongoing => true,
        _ => false,
    };
    if depth == 0 || !ongoing {
        return (None, evaluate(board) + POINT - POINT * (ply as i64));
    }
    let legal = legal_moves(board);
    let ghost generated = legal@;
    let moves = order_moves(board, legal);
    let ghost s = board_state(*board);
    let ghost stop = weakfish.is_interruption;
    let ghost goal = scan(
        stop,
        *table,
        s,
        depth as nat,
        moves@,
        0,
        alpha as int,
        beta as int,
        ply as int,
        None,
        -CHECKMATE as int,
        hashmap@,
    );
    proof {
        lemma_ordered_is_permutation(
            placement_of(s),
            s.black_to_move,
            status_of(s) == BoardStatus::Checkmate,
            checking_of(s),
            legal_moves_of(s),
        );
    }
    assert forall|j: int| 0 <= j < moves.len() implies (#[trigger] moves[j]).well_formed()
        && generated.contains(moves[j]) by {
        let m = moves@[j];
        assert(generated == legal_moves_of(s));
        assert(moves@ == ordered_moves_of(s, generated));
        assert(moves@.contains(m));
        assert(generated.contains(m));
        let k = choose|k: int| 0 <= k < generated.len() && generated[k] == m;
        assert(generated[k].well_formed());
    }
    let window_low = alpha;
    let mut best_so_far: Option<Move> = None;
    let mut max_score: i64 = -CHECKMATE;
    let mut cut = false;
    let mut i: usize = 0;
    while i < moves.len() && !cut
        invariant
            i <= moves.len(),
            depth > 0,
            depth + ply <= u8::MAX,
            turn_multiplier == 1 || turn_multiplier == -1,
            s == board_state(*board),
            playable(*board),
            stop == weakfish.is_interruption,
            forall|j: int|
                0 <= j < moves.len() ==> (#[trigger] moves[j]).well_formed() && legal_moves_of(
                    s,
                ).contains(moves[j]),
            best_so_far matches Some(m) ==> m.well_formed() && legal_moves_of(s).contains(m),
            valid_cache(hashmap@),
            -SCORE_LIMIT <= alpha <= SCORE_LIMIT,
            -SCORE_LIMIT <= beta <= SCORE_LIMIT,
            -SCORE_LIMIT <= max_score <= SCORE_LIMIT,
            goal == (if cut {
                Progress { best: best_so_far, score: max_score as int, cache: hashmap@ }
            } else {
                scan(
                    stop,
                    *table,
                    s,
                    depth as nat,
                    moves@,
                    i as int,
                    alpha as int,
                    beta as int,
                    ply as int,
                    best_so_far,
                    max_score as int,
                    hashmap@,
                )
            }),
        decreases moves.len() - i, (if cut {
            0int
        } else {
            1int
        }),
    {
        let m = moves[i];
        let child = make_move(board, m);
        let score = -negamax(
            weakfish,
            &child,
            depth - 1,
            -beta,
            -alpha,
            -turn_multiplier,
            ply + 1,
            table,
            hashmap,
        ).1;
        if score > max_score {
            best_so_far = Some(m);
            max_score = score;
        }
        alpha = if alpha >= score {
            alpha
        } else {
            score
        };
        if alpha >= beta {
            cut = true;
        } else {
            i = i + 1;
        }
    }
    let ghost selected = best_so_far;
    if best_so_far.is_none() {
        let mut all = legal_moves(board);
        let ghost before = all@;
        shuffle(&mut all);
        proof {
            vstd::seq_lib::to_multiset_len(before);
            vstd::seq_lib::to_multiset_len(all@);
            vstd::seq_lib::to_multiset_contains(before, all@[all@.len() - 1]);
            vstd::seq_lib::to_multiset_contains(all@, all@[all@.len() - 1]);
            let last = all@[all@.len() - 1];
            let k = choose|k: int| 0 <= k < before.len() && before[k] == last;
            assert(before[k].well_formed());
        }
        best_so_far = Some(all[all.len() - 1]);
    }
    let bound = if max_score <= window_low {
        Bound::Upper
    } else if max_score >= beta {
        Bound::Lower
    } else {
        Bound::Exact
    };
    put(hashmap, hash, depth, max_score, 0, bound);
    (best_so_far, max_score)
}

/// The window's lower edge and the cache as they stand when the loop over a
/// node's moves reaches move `i` without having been cut off.
pub open spec fn before_move(
    stop: bool,
    keys: TT,
    s: BoardState,
    depth: nat,
    moves: Seq<Move>,
    i: int,
    alpha: int,
    beta: int,
    ply: int,
    cache: Map<u64, TableEntry>,
) -> (int, Map<u64, TableEntry>)
    decreases i,
{
    if i <= 0 {
        (alpha, cache)
    } else {
        let (a, c) = before_move(stop, keys, s, depth, moves, i - 1, alpha, beta, ply, cache);
        let child = search(
            stop,
            keys,
            state_after(s, moves[i - 1]),
            (depth - 1) as nat,
            -beta,
            -a,
            ply + 1,
            c,
        );
        (greater(a, -child.score), child.cache)
    }
}

/// What the search returned for move `i` of a node when the loop reached
/// it.
pub open spec fn child_outcome(
    stop: bool,
    keys: TT,
    s: BoardState,
    depth: nat,
    moves: Seq<Move>,
    i: int,
    alpha: int,
    beta: int,
    ply: int,
    cache: Map<u64, TableEntry>,
) -> Outcome {
    let (a, c) = before_move(stop, keys, s, depth, moves, i, alpha, beta, ply, cache);
    search(stop, keys, state_after(s, moves[i]), (depth - 1) as nat, -beta, -a, ply + 1, c)
}

/// How many of a node's moves the loop, begun at move `i`, has examined
/// when it ends: all of them, or those up to the move at which alpha
/// reached beta.
pub open spec fn examined(
    stop: bool,
    keys: TT,
    s: BoardState,
    depth: nat,
    moves: Seq<Move>,
    i: int,
    alpha: int,
    beta: int,
    ply: int,
    cache: Map<u64, TableEntry>,
) -> int
    decreases moves.len() - i,
{
    if i < 0 || i >= moves.len() || depth == 0 {
        i
    } else {
        let child = search(
            stop,
            keys,
            state_after(s, moves[i]),
            (depth - 1) as nat,
            -beta,
            -alpha,
            ply + 1,
            cache,
        );
        let alpha1 = greater(alpha, -child.score);
        if alpha1 >= beta {
            i + 1
        } else {
            examined(stop, keys, s, depth, moves, i + 1, alpha1, beta, ply, child.cache)
        }
    }
}

/// Whether none of the moves `from` to `to - 1` of a node scored more than
/// `score` when it was examined.
#[verifier::opaque]
pub open spec fn none_scored_more(
    stop: bool,
    keys: TT,
    s: BoardState,
    depth: nat,
    moves: Seq<Move>,
    from: int,
    to: int,
    alpha: int,
    beta: int,
    ply: int,
    cache: Map<u64, TableEntry>,
    score: int,
) -> bool {
    forall|j: int|
        from <= j < to ==> -(#[trigger] child_outcome(
            stop,
            keys,
            s,
            depth,
            moves,
            j,
            alpha,
            beta,
            ply,
            cache,
        )).score <= score
}

/// Whether each of the moves `from` to `to - 1` of a node scored less than
/// `score` when it was examined.
#[verifier::opaque]
pub open spec fn all_scored_less(
    stop: bool,
    keys: TT,
    s: BoardState,
    depth: nat,
    moves: Seq<Move>,
    from: int,
    to: int,
    alpha: int,
    beta: int,
    ply: int,
    cache: Map<u64, TableEntry>,
    score: int,
) -> bool {
    forall|j: int|
        from <= j < to ==> -(#[trigger] child_outcome(
            stop,
            keys,
            s,
            depth,
            moves,
            j,
            alpha,
            beta,
            ply,
            cache,
        )).score < score
}

proof fn lemma_none_scored_more_grows(
    stop: bool,
    keys: TT,
    s: BoardState,
    depth: nat,
    moves: Seq<Move>,
    from: int,
    to: int,
    alpha: int,
    beta: int,
    ply: int,
    cache: Map<u64, TableEntry>,
    score: int,
)
    requires
        from + 1 >= to || none_scored_more(
            stop,
            keys,
            s,
            depth,
            moves,
            from + 1,
            to,
            alpha,
            beta,
            ply,
            cache,
            score,
        ),
        from >= to || -child_outcome(stop, keys, s, depth, moves, from, alpha, beta, ply, cache).score
            <= score,
    ensures
        none_scored_more(stop, keys, s, depth, moves, from, to, alpha, beta, ply, cache, score),
{
    reveal(none_scored_more);
}

proof fn lemma_all_scored_less_grows(
    stop: bool,
    keys: TT,
    s: BoardState,
    depth: nat,
    moves: Seq<Move>,
    from: int,
    to: int,
    alpha: int,
    beta: int,
    ply: int,
    cache: Map<u64, TableEntry>,
    score: int,
)
    requires
        from + 1 >= to || all_scored_less(
            stop,
            keys,
            s,
            depth,
            moves,
            from + 1,
            to,
            alpha,
            beta,
            ply,
            cache,
            score,
        ),
        from >= to || -child_outcome(stop, keys, s, depth, moves, from, alpha, beta, ply, cache).score
            < score,
    ensures
        all_scored_less(stop, keys, s, depth, moves, from, to, alpha, beta, ply, cache, score),
{
    reveal(all_scored_less);
}

proof fn lemma_scan_examines(
    stop: bool,
    keys: TT,
    s: BoardState,
    depth: nat,
    moves: Seq<Move>,
    i: int,
    alpha: int,
    beta: int,
    ply: int,
    best: Option<Move>,
    max: int,
    cache: Map<u64, TableEntry>,
)
    requires
        depth > 0,
        0 <= i <= moves.len(),
    ensures
        ({
            let (a, c) = before_move(stop, keys, s, depth, moves, i, alpha, beta, ply, cache);
            let done = scan(stop, keys, s, depth, moves, i, a, beta, ply, best, max, c);
            let n = examined(stop, keys, s, depth, moves, i, a, beta, ply, c);
            &&& i <= n <= moves.len()
            &&& i < moves.len() ==> i < n
            &&& done.score >= max
            &&& none_scored_more(stop, keys, s, depth, moves, i, n, alpha, beta, ply, cache, done.score)
            &&& (done.best == best && done.score == max) || (done.score > max && exists|k: int|
                i <= k < n && done.best == Some(moves[k]) && done.score == -(#[trigger] child_outcome(
                    stop,
                    keys,
                    s,
                    depth,
                    moves,
                    k,
                    alpha,
                    beta,
                    ply,
                    cache,
                )).score && all_scored_less(
                    stop,
                    keys,
                    s,
                    depth,
                    moves,
                    i,
                    k,
                    alpha,
                    beta,
                    ply,
                    cache,
                    done.score,
                ))
        }),
    decreases moves.len() - i,
{
    let (a, c) = before_move(stop, keys, s, depth, moves, i, alpha, beta, ply, cache);
    let done = scan(stop, keys, s, depth, moves, i, a, beta, ply, best, max, c);
    let n = examined(stop, keys, s, depth, moves, i, a, beta, ply, c);
    if i < moves.len() {
        let child = child_outcome(stop, keys, s, depth, moves, i, alpha, beta, ply, cache);
        let score = -child.score;
        let best1 = if score > max {
            Some(moves[i])
        } else {
            best
        };
        let max1 = greater(score, max);
        let alpha1 = greater(a, score);
        if alpha1 < beta {
            lemma_scan_examines(stop, keys, s, depth, moves, i + 1, alpha, beta, ply, best1, max1, cache);
            assert(before_move(stop, keys, s, depth, moves, i + 1, alpha, beta, ply, cache) == (
                alpha1,
                child.cache,
            ));
        } else {
            assert(n == i + 1);
            assert(done.best == best1 && done.score == max1);
        }
        assert(done.score >= max1);
        lemma_none_scored_more_grows(stop, keys, s, depth, moves, i, n, alpha, beta, ply, cache, done.score);
        if done.best == best1 && done.score == max1 {
            if score > max {
                lemma_all_scored_less_grows(
                    stop,
                    keys,
                    s,
                    depth,
                    moves,
                    i,
                    i,
                    alpha,
                    beta,
                    ply,
                    cache,
                    done.score,
                );
                assert(i <= i < n && done.best == Some(moves[i]) && done.score == -child_outcome(
                    stop,
                    keys,
                    s,
                    depth,
                    moves,
                    i,
                    alpha,
                    beta,
                    ply,
                    cache,
                ).score);
            }
        } else {
            let k = choose|k: int|
                i + 1 <= k < n && done.best == Some(moves[k]) && done.score == -(
                #[trigger] child_outcome(stop, keys, s, depth, moves, k, alpha, beta, ply, cache)).score
                    && all_scored_less(
                    stop,
                    keys,
                    s,
                    depth,
                    moves,
                    i + 1,
                    k,
                    alpha,
                    beta,
                    ply,
                    cache,
                    done.score,
                );
            lemma_all_scored_less_grows(
                stop,
                keys,
                s,
                depth,
                moves,
                i,
                k,
                alpha,
                beta,
                ply,
                cache,
                done.score,
            );
        }
    } else {
        lemma_none_scored_more_grows(stop, keys, s, depth, moves, i, n, alpha, beta, ply, cache, done.score);
    }
}

/// What a node that examined its moves returns: no move that it examined
/// scored more than the node's score, and the move selected is the first
/// whose score, negated from what the search returned for the position
/// after it, is the node's score. This holds also where no move was
/// selected and the move returned is drawn: then the node's score is minus
/// [`CHECKMATE`] and no move scored more.
pub proof fn lemma_best_move_is_first_of_the_best(
    stop: bool,
    keys: TT,
    s: BoardState,
    depth: nat,
    alpha: int,
    beta: int,
    ply: int,
    cache: Map<u64, TableEntry>,
)
    ensures
        ({
            let out = search(stop, keys, s, depth, alpha, beta, ply, cache);
            let moves = ordered_moves_of(s, legal_moves_of(s));
            let low = greater(alpha, -mate_bound(ply));
            let high = lesser(beta, mate_bound(ply));
            let n = examined(stop, keys, s, depth, moves, 0, low, high, ply, cache);
            (out.best is Some || out.fallback) ==> {
                &&& depth > 0
                &&& 0 <= n <= moves.len()
                &&& none_scored_more(stop, keys, s, depth, moves, 0, n, low, high, ply, cache, out.score)
                &&& out.best is Some ==> exists|k: int|
                    0 <= k < n && out.best == Some(moves[k]) && out.score == -(
                    #[trigger] child_outcome(stop, keys, s, depth, moves, k, low, high, ply, cache)).score
                        && all_scored_less(
                        stop,
                        keys,
                        s,
                        depth,
                        moves,
                        0,
                        k,
                        low,
                        high,
                        ply,
                        cache,
                        out.score,
                    )
            }
        }),
{
    let out = search(stop, keys, s, depth, alpha, beta, ply, cache);
    if out.best is Some || out.fallback {
        let moves = ordered_moves_of(s, legal_moves_of(s));
        let low = greater(alpha, -mate_bound(ply));
        let high = lesser(beta, mate_bound(ply));
        lemma_scan_examines(
            stop,
            keys,
            s,
            depth,
            moves,
            0,
            low,
            high,
            ply,
            None,
            -CHECKMATE as int,
            cache,
        );
    }
}

/// The negamax identity: the score of a node that selected a move is the
/// negation of the score that the search returned for the position after
/// that move, when the loop over the node's moves reached it.
pub proof fn lemma_negamax_identity(
    stop: bool,
    keys: TT,
    s: BoardState,
    depth: nat,
    alpha: int,
    beta: int,
    ply: int,
    cache: Map<u64, TableEntry>,
)
    ensures
        ({
            let out = search(stop, keys, s, depth, alpha, beta, ply, cache);
            let moves = ordered_moves_of(s, legal_moves_of(s));
            let low = greater(alpha, -mate_bound(ply));
            let high = lesser(beta, mate_bound(ply));
            out.best is Some ==> depth > 0 && exists|k: int|
                0 <= k < moves.len() && out.best == Some(moves[k]) && out.score == -(
                #[trigger] child_outcome(stop, keys, s, depth, moves, k, low, high, ply, cache)).score
        }),
{
    lemma_best_move_is_first_of_the_best(stop, keys, s, depth, alpha, beta, ply, cache);
}

/// A node passes on only what its children returned: a node that selected a
/// move is no leaf, was not stopped, and its position was not in the cache.
pub proof fn lemma_selected_move_means_examined(
    stop: bool,
    keys: TT,
    s: BoardState,
    depth: nat,
    alpha: int,
    beta: int,
    ply: int,
    cache: Map<u64, TableEntry>,
)
    ensures
        ({
            let out = search(stop, keys, s, depth, alpha, beta, ply, cache);
            (out.best is Some || out.fallback) ==> !stop && depth > 0 && status_of(s)
                == BoardStatus::Ongoing && cached_score(cache, zobrist(keys, s), depth as u8)
                is None && out.cache.contains_key(zobrist(keys, s))
        }),
{
}

/// The same evaluation is worth one point less with each further ply.
pub proof fn lemma_leaf_score_decreases(evaluation: int, ply: int)
    ensures
        leaf_score(evaluation, ply + 1) == leaf_score(evaluation, ply) - POINT,
        leaf_score(evaluation, ply + 1) < leaf_score(evaluation, ply),
{
}

/// What the search returns for a mated position that it reaches as a leaf:
/// minus [`CHECKMATE`] plus one point, less one point per ply.
pub proof fn lemma_mated_leaf(
    keys: TT,
    s: BoardState,
    depth: nat,
    alpha: int,
    beta: int,
    ply: int,
    cache: Map<u64, TableEntry>,
)
    requires
        status_of(s) == BoardStatus::Checkmate,
        0 <= ply <= u8::MAX,
        !cache.contains_key(zobrist(keys, s)),
        alpha < mate_bound(ply),
        -mate_bound(ply) < beta,
    ensures
        search(false, keys, s, depth, alpha, beta, ply, cache) == settled(
            -CHECKMATE + POINT - POINT * ply,
            cache,
        ),
{
}

proof fn lemma_scan_keeps_unselected(
    stop: bool,
    keys: TT,
    s: BoardState,
    depth: nat,
    moves: Seq<Move>,
    i: int,
    alpha: int,
    beta: int,
    ply: int,
    max: int,
    cache: Map<u64, TableEntry>,
)
    requires
        0 <= i <= moves.len(),
    ensures
        ({
            let done = scan(stop, keys, s, depth, moves, i, alpha, beta, ply, None, max, cache);
            done.best is None ==> done.score == max
        }),
    decreases moves.len() - i,
{
    if i < moves.len() && depth > 0 {
        let child = search(
            stop,
            keys,
            state_after(s, moves[i]),
            (depth - 1) as nat,
            -beta,
            -alpha,
            ply + 1,
            cache,
        );
        let score = -child.score;
        if score > max {
            lemma_scan_keeps_selected(
                stop,
                keys,
                s,
                depth,
                moves,
                i + 1,
                greater(alpha, score),
                beta,
                ply,
                Some(moves[i]),
                score,
                child.cache,
            );
        } else {
            lemma_scan_keeps_unselected(
                stop,
                keys,
                s,
                depth,
                moves,
                i + 1,
                greater(alpha, score),
                beta,
                ply,
                max,
                child.cache,
            );
        }
    }
}

proof fn lemma_scan_keeps_selected(
    stop: bool,
    keys: TT,
    s: BoardState,
    depth: nat,
    moves: Seq<Move>,
    i: int,
    alpha: int,
    beta: int,
    ply: int,
    best: Option<Move>,
    max: int,
    cache: Map<u64, TableEntry>,
)
    requires
        0 <= i <= moves.len(),
        best is Some,
    ensures
        scan(stop, keys, s, depth, moves, i, alpha, beta, ply, best, max, cache).best is Some,
    decreases moves.len() - i,
{
    if i < moves.len() && depth > 0 {
        let child = search(
            stop,
            keys,
            state_after(s, moves[i]),
            (depth - 1) as nat,
            -beta,
            -alpha,
            ply + 1,
            cache,
        );
        let score = -child.score;
        let best1 = if score > max {
            Some(moves[i])
        } else {
            best
        };
        lemma_scan_keeps_selected(
            stop,
            keys,
            s,
            depth,
            moves,
            i + 1,
            greater(alpha, score),
            beta,
            ply,
            best1,
            greater(score, max),
            child.cache,
        );
    }
}

/// The move drawn at random stands in only where nothing is left to choose:
/// a node that examined its moves and selected none has the score minus
/// [`CHECKMATE`], because no continuation scored more.
pub proof fn lemma_fallback_means_no_better_move(
    stop: bool,
    keys: TT,
    s: BoardState,
    depth: nat,
    alpha: int,
    beta: int,
    ply: int,
    cache: Map<u64, TableEntry>,
)
    ensures
        ({
            let out = search(stop, keys, s, depth, alpha, beta, ply, cache);
            out.fallback ==> out.best is None && out.score == -CHECKMATE
        }),
{
    let out = search(stop, keys, s, depth, alpha, beta, ply, cache);
    if out.fallback {
        let moves = ordered_moves_of(s, legal_moves_of(s));
        lemma_scan_keeps_unselected(
            stop,
            keys,
            s,
            depth,
            moves,
            0,
            greater(alpha, -mate_bound(ply)),
            lesser(beta, mate_bound(ply)),
            ply,
            -CHECKMATE as int,
            cache,
        );
    }
}

} // verus!
