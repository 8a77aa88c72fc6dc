use std::collections::HashMap;
use std::str::FromStr;
use weakfish::board::Move;
use weakfish::constants::{CHECKMATE, POINT};
use weakfish::engine::Weakfish;
use weakfish::search::evaluation::evaluate;
use weakfish::search::exhaustive::exhaustive;
use weakfish::search::negamax::negamax;
use weakfish::search::ordering::order_moves;
use weakfish::search::transposition::{put, Bound, TableEntry, TT};

const MATE_IN_ONE: &str = "6k1/5ppp/8/8/8/8/8/R3K3 w - - 0 1";

fn numbered_keys() -> TT {
    let mut table = [[0u64; 13]; 64];
    for sq in 0..64 {
        for code in 1..13 {
            table[sq][code] = ((sq * 13 + code + 1) as u64).wrapping_mul(0x9E37_79B9_7F4A_7C15);
        }
    }
    TT { table, black_to_move: 0xDEAD_BEEF_0BAD_F00D }
}

fn root(board: &chess::Board, depth: u8, cache: &mut HashMap<u64, TableEntry>) -> (Option<Move>, i64) {
    let turn = if board.side_to_move() == chess::Color::White { 1 } else { -1 };
    negamax(&Weakfish::new(), board, depth, -CHECKMATE, CHECKMATE, turn, 0, &numbered_keys(), cache)
}

fn to_chess(m: Move) -> chess::ChessMove {
    chess::ChessMove::new(
        chess::ALL_SQUARES[m.source as usize],
        chess::ALL_SQUARES[m.dest as usize],
        m.promotion.map(|p| chess::ALL_PIECES[p as usize]),
    )
}

/// Negamax over the whole tree, with the same leaves and no pruning. As in
/// the search, a node's score starts at minus CHECKMATE.
fn whole_tree(board: &chess::Board, depth: u8, ply: u8) -> i64 {
    if depth == 0 || board.status() != chess::BoardStatus::Ongoing {
        return evaluate(board) + POINT - POINT * ply as i64;
    }
    chess::MoveGen::new_legal(board)
        .map(|m| -whole_tree(&board.make_move_new(m), depth - 1, ply + 1))
        .fold(-CHECKMATE, i64::max)
}

#[test]
fn opening_move_at_depth_one() {
    let board = chess::Board::default();
    let mut cache = HashMap::new();
    let (best, score) = root(&board, 1, &mut cache);
    let best = best.unwrap();
    assert!(board.legal(to_chess(best)));
    assert_eq!(chess::MoveGen::new_legal(&board).count(), 20);
    let expected = chess::MoveGen::new_legal(&board)
        .map(|m| -evaluate(&board.make_move_new(m)))
        .max()
        .unwrap();
    assert_eq!(score, expected);
}

#[test]
fn first_move_wins_ties() {
    let board = chess::Board::default();
    let mut cache = HashMap::new();
    let (best, score) = root(&board, 1, &mut cache);
    let first = chess::MoveGen::new_legal(&board)
        .find(|m| -evaluate(&board.make_move_new(*m)) == score)
        .unwrap();
    assert_eq!(to_chess(best.unwrap()), first);
}

#[test]
fn mate_in_one_is_found() {
    let board = chess::Board::from_str(MATE_IN_ONE).unwrap();
    for depth in 1..=3 {
        let mut cache = HashMap::new();
        let (best, score) = root(&board, depth, &mut cache);
        assert_eq!(best, Some(Move { source: 0, dest: 56, promotion: None }));
        // The mated position is a leaf at ply 1: -CHECKMATE + 1 - 1 points.
        assert_eq!(score, CHECKMATE);
    }
}

#[test]
fn mated_leaf_loses_a_point_per_ply() {
    let board = chess::Board::from_str("R5k1/5ppp/8/8/8/8/8/4K3 b - - 0 1").unwrap();
    let engine = Weakfish::new();
    let keys = numbered_keys();
    for ply in 0..4u8 {
        let mut cache = HashMap::new();
        let wide = 2 * CHECKMATE;
        let found = negamax(&engine, &board, 3, -wide, wide, -1, ply, &keys, &mut cache);
        assert_eq!(found, (None, -CHECKMATE + POINT - POINT * ply as i64));
        assert!(cache.is_empty());
    }
}

#[test]
fn depth_zero_scores_the_leaf() {
    let board = chess::Board::default();
    let engine = Weakfish::new();
    let keys = numbered_keys();
    let mut cache = HashMap::new();
    assert_eq!(
        negamax(&engine, &board, 0, -CHECKMATE, CHECKMATE, 1, 0, &keys, &mut cache),
        (None, POINT)
    );
    assert_eq!(
        negamax(&engine, &board, 0, -CHECKMATE, CHECKMATE, 1, 5, &keys, &mut cache),
        (None, -4 * POINT)
    );
    assert!(cache.is_empty());
}

#[test]
fn stopped_search_returns_nothing() {
    let board = chess::Board::default();
    let mut engine = Weakfish::new();
    engine.quit();
    let mut cache = HashMap::new();
    let found = negamax(&engine, &board, 3, -CHECKMATE, CHECKMATE, 1, 0, &numbered_keys(), &mut cache);
    assert_eq!(found, (None, 0));
    assert!(cache.is_empty());
}

#[test]
fn window_beyond_the_mate_bound_returns_the_bound() {
    let board = chess::Board::default();
    let engine = Weakfish::new();
    let keys = numbered_keys();
    let mut cache = HashMap::new();
    let high = negamax(&engine, &board, 2, CHECKMATE - POINT, CHECKMATE, 1, 2, &keys, &mut cache);
    assert_eq!(high, (None, CHECKMATE - 2 * POINT));
    let low = negamax(&engine, &board, 2, -CHECKMATE, -CHECKMATE + POINT, 1, 2, &keys, &mut cache);
    assert_eq!(low, (None, -CHECKMATE + 2 * POINT));
    assert!(cache.is_empty());
}

#[test]
fn cached_score_answers_whatever_the_depth() {
    // An entry from a shallow search shadows a deeper one: the lookup
    // consults neither the depth stored nor the bound.
    let board = chess::Board::default();
    let keys = numbered_keys();
    let mut cache = HashMap::new();
    put(&mut cache, keys.hash(&board), 0, 1234, 0, Bound::Upper);
    assert_eq!(root(&board, 3, &mut cache), (None, 1234));
    assert_eq!(cache.len(), 1);
}

#[test]
fn searched_node_is_stored_with_its_depth() {
    let board = chess::Board::default();
    let keys = numbered_keys();
    let mut cache = HashMap::new();
    let (_, score) = root(&board, 1, &mut cache);
    assert_eq!(cache.len(), 1);
    let entry = cache.get(&keys.hash(&board)).unwrap();
    assert_eq!((entry.depth, entry.score, entry.age, entry.bound), (1, score, 0, Bound::Exact));
    // asked again, the cache answers, without a move
    assert_eq!(root(&board, 1, &mut cache), (None, score));
}

#[test]
fn cutoff_is_stored_as_a_lower_bound() {
    let board = chess::Board::from_str(MATE_IN_ONE).unwrap();
    let keys = numbered_keys();
    let mut cache = HashMap::new();
    root(&board, 1, &mut cache);
    let entry = cache.get(&keys.hash(&board)).unwrap();
    assert_eq!((entry.score, entry.bound), (CHECKMATE, Bound::Lower));
}

#[test]
fn two_runs_agree() {
    let board = chess::Board::from_str("r1bqkbnr/pppp1ppp/2n5/4p3/4P3/5N2/PPPP1PPP/RNBQKB1R w KQkq - 2 3").unwrap();
    let first = root(&board, 2, &mut HashMap::new());
    let second = root(&board, 2, &mut HashMap::new());
    assert!(first.0.is_some());
    assert_eq!(first, second);
}

#[test]
fn score_negates_the_chosen_childs_score() {
    let board = chess::Board::from_str("r1bqkbnr/pppp1ppp/2n5/4p3/4P3/5N2/PPPP1PPP/RNBQKB1R w KQkq - 2 3").unwrap();
    let (best, score) = root(&board, 1, &mut HashMap::new());
    let child = board.make_move_new(to_chess(best.unwrap()));
    let engine = Weakfish::new();
    let reply = negamax(&engine, &child, 0, -CHECKMATE, CHECKMATE, -1, 1, &numbered_keys(), &mut HashMap::new());
    assert_eq!(score, -reply.1);
}

#[test]
fn pruning_keeps_the_score_of_the_whole_tree() {
    for fen in [
        "r1bqkbnr/pppp1ppp/2n5/4p3/4P3/5N2/PPPP1PPP/RNBQKB1R w KQkq - 2 3",
        "4k3/pp6/8/3n4/4P3/8/6PP/4K3 w - - 0 1",
        "4k3/pp6/8/3n4/4P3/8/6PP/4K3 b - - 0 1",
    ] {
        let board = chess::Board::from_str(fen).unwrap();
        for depth in 1..=2 {
            let (_, score) = root(&board, depth, &mut HashMap::new());
            assert_eq!(score, whole_tree(&board, depth, 0));
        }
    }
}

#[test]
fn exhaustive_search_is_plain_negamax() {
    for fen in [
        "r1bqkbnr/pppp1ppp/2n5/4p3/4P3/5N2/PPPP1PPP/RNBQKB1R w KQkq - 2 3",
        "4k3/pp6/8/3n4/4P3/8/6PP/4K3 b - - 0 1",
        MATE_IN_ONE,
        "6k1/1b6/8/8/8/8/5qPP/7K w - - 0 1",
    ] {
        let board = chess::Board::from_str(fen).unwrap();
        for depth in 0..=2 {
            for ply in [0u8, 3] {
                assert_eq!(exhaustive(&board, depth, ply), whole_tree(&board, depth, ply));
            }
        }
    }
    assert_eq!(exhaustive(&chess::Board::default(), 0, 0), POINT);
    let mate = chess::Board::from_str(MATE_IN_ONE).unwrap();
    assert_eq!(exhaustive(&mate, 1, 0), CHECKMATE);
    assert_eq!(exhaustive(&mate, 1, 2), CHECKMATE + 2 * POINT);
}

#[test]
fn pruning_keeps_the_exhaustive_score() {
    for (fen, deepest) in [
        ("rnbqkbnr/pppppppp/8/8/8/8/PPPPPPPP/RNBQKBNR w KQkq - 0 1", 2),
        ("4k3/pp6/8/3n4/4P3/8/6PP/4K3 w - - 0 1", 3),
        (MATE_IN_ONE, 3),
        ("6k1/1b6/8/8/8/8/5qPP/7K w - - 0 1", 3),
        ("7k/5Q2/6K1/8/8/8/8/8 b - - 0 1", 2),
        ("R5k1/5ppp/8/8/8/8/8/4K3 b - - 0 1", 2),
    ] {
        let board = chess::Board::from_str(fen).unwrap();
        for depth in 0..=deepest {
            let (_, score) = root(&board, depth, &mut HashMap::new());
            assert_eq!(score, exhaustive(&board, depth, 0), "{} at depth {}", fen, depth);
        }
    }
}

#[test]
fn cache_hit_breaks_the_agreement_with_the_exhaustive_search() {
    let board = chess::Board::default();
    let keys = numbered_keys();
    let mut cache = HashMap::new();
    put(&mut cache, keys.hash(&board), 0, 1234, 0, Bound::Exact);
    assert_eq!(root(&board, 1, &mut cache).1, 1234);
    assert_ne!(exhaustive(&board, 1, 0), 1234);
}

#[test]
fn lost_position_falls_back_on_some_legal_move() {
    // Whatever white plays, black mates on the move: no continuation scores
    // more than minus CHECKMATE, none is selected, and a legal move is
    // drawn.
    let board = chess::Board::from_str("6k1/1b6/8/8/8/8/5qPP/7K w - - 0 1").unwrap();
    assert_eq!(chess::MoveGen::new_legal(&board).count(), 2);
    let keys = numbered_keys();
    for _ in 0..8 {
        let mut cache = HashMap::new();
        let (best, score) = root(&board, 2, &mut cache);
        assert_eq!(score, -CHECKMATE);
        assert!(board.legal(to_chess(best.unwrap())));
        let entry = cache.get(&keys.hash(&board)).unwrap();
        assert_eq!((entry.depth, entry.score, entry.bound), (2, -CHECKMATE, Bound::Upper));
    }
}

#[test]
fn best_move_is_the_first_of_the_best_in_search_order() {
    // In play that is not lost the move returned is one that the search
    // selected, never one that was drawn.
    for fen in [
        "rnbqkbnr/pppppppp/8/8/8/8/PPPPPPPP/RNBQKBNR w KQkq - 0 1",
        "r1bqkbnr/pppp1ppp/2n5/4p3/4P3/5N2/PPPP1PPP/RNBQKB1R w KQkq - 2 3",
        "4k3/pp6/8/3n4/4P3/8/6PP/4K3 b - - 0 1",
    ] {
        let board = chess::Board::from_str(fen).unwrap();
        let generated: Vec<Move> = chess::MoveGen::new_legal(&board)
            .map(|m| Move {
                source: m.get_source().to_index() as u8,
                dest: m.get_dest().to_index() as u8,
                promotion: m.get_promotion().map(|p| p.to_index() as u8),
            })
            .collect();
        let ordered = order_moves(&board, generated);
        for depth in 1..=2u8 {
            for _ in 0..3 {
                let (best, score) = root(&board, depth, &mut HashMap::new());
                assert!(score > -CHECKMATE);
                let first = ordered
                    .iter()
                    .find(|m| {
                        -exhaustive(&board.make_move_new(to_chess(**m)), depth - 1, 1) == score
                    })
                    .unwrap();
                assert_eq!(best, Some(*first));
            }
        }
    }
}

#[test]
fn stalemate_is_a_leaf() {
    let board = chess::Board::from_str("7k/5Q2/6K1/8/8/8/8/8 b - - 0 1").unwrap();
    let mut cache = HashMap::new();
    assert_eq!(root(&board, 4, &mut cache), (None, POINT));
}
