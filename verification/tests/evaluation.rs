use std::str::FromStr;
use weakfish::constants::CHECKMATE;
use weakfish::search::evaluation::{evaluate, static_score};

fn kings() -> [u8; 64] {
    let mut squares = [0u8; 64];
    squares[4] = 6;
    squares[60] = 12;
    squares
}

fn mirrored(squares: &[u8; 64]) -> [u8; 64] {
    let mut out = [0u8; 64];
    for sq in 0..64 {
        let code = squares[(7 - sq / 8) * 8 + sq % 8];
        out[sq] = if (1..=6).contains(&code) {
            code + 6
        } else if (7..=12).contains(&code) {
            code - 6
        } else {
            code
        };
    }
    out
}

#[test]
fn starting_position_is_balanced() {
    let board = chess::Board::default();
    assert_eq!(evaluate(&board), 0);
}

#[test]
fn empty_board_scores_zero() {
    assert_eq!(static_score(&[0u8; 64], false, 0, 0), 0);
}

#[test]
fn bare_kings_cancel() {
    assert_eq!(static_score(&kings(), false, 0, 0), 0);
    assert_eq!(static_score(&kings(), true, 0, 0), 0);
}

#[test]
fn lone_pawn_counts_against_the_side_not_to_move() {
    let mut squares = kings();
    squares[28] = 1;
    assert_eq!(static_score(&squares, false, 0, 0), -275);
}

#[test]
fn legal_move_counts_weigh_ten_each() {
    let mut squares = kings();
    squares[28] = 1;
    assert_eq!(static_score(&squares, false, 3, 5), -255);
    assert_eq!(static_score(&squares, false, 5, 3), -295);
}

#[test]
fn legal_move_counts_are_capped() {
    let squares = kings();
    assert_eq!(static_score(&squares, false, 0, 1024), 10_240);
    assert_eq!(static_score(&squares, false, 0, 5000), 10_240);
    assert_eq!(static_score(&squares, false, usize::MAX, 0), -10_240);
}

#[test]
fn knight_threatens_rook() {
    let mut squares = kings();
    squares[27] = 2;
    squares[44] = 10;
    assert_eq!(static_score(&squares, true, 0, 0), -250);
}

#[test]
fn pawn_threatens_knight() {
    let mut squares = kings();
    squares[28] = 1;
    squares[35] = 8;
    assert_eq!(static_score(&squares, true, 0, 0), -450);
}

#[test]
fn king_threatens_its_neighbours() {
    let mut squares = kings();
    squares[11] = 8;
    // king e1: knight d2 worth 300 + 5 steps to take - 3 steps from the
    // centre; knight d2 (theirs): 300 + 6 jumps - 2 steps + table 0; king e8
    // (theirs): 5 steps to take - 3 steps from the centre.
    assert_eq!(static_score(&squares, true, 0, 0), (300 + 500 - 90) - 840 - 410);
}

#[test]
fn bishop_threatens_along_the_diagonal() {
    let mut squares = kings();
    squares[2] = 3;
    squares[16] = 10;
    let bishop = 300 + 500 + 700 - 120 - 10;
    let rook = 500 + 1400 - 120 - 5;
    assert_eq!(static_score(&squares, true, 0, 0), bishop - rook);
}

#[test]
fn neighbouring_pawns_are_not_isolated() {
    let mut squares = kings();
    squares[8] = 1;
    squares[9] = 1;
    assert_eq!(static_score(&squares, true, 0, 0), (100 + 200 - 150) + (100 + 200 - 120));
    // a pawn of the other colour on a neighbouring file counts as well
    squares[9] = 0;
    squares[49] = 7;
    let mine = 100 + 200 - 150;
    let theirs = 100 + 200 - 120;
    assert_eq!(static_score(&squares, true, 0, 0), mine - theirs);
}

#[test]
fn queen_bears_along_files_ranks_and_diagonals() {
    let mut squares = kings();
    squares[27] = 5;
    squares[35] = 7;
    // queen d4: 900 + the pawn on her file 100 + 14 squares along file and
    // rank and 13 along the diagonals + table 10; black pawn d5 (theirs,
    // table index 28): 100 + no push past the queen + table 20 + isolated
    // 50.
    let queen = 900 + 100 + 2700 + 10;
    let pawn = 100 + 0 + 20 + 50;
    assert_eq!(static_score(&squares, true, 0, 0), queen - pawn);
    // a piece on a diagonal of hers
    squares[35] = 0;
    squares[45] = 9;
    // bishop f6 (theirs, table index 18): 300 + the queen on its diagonal
    // 900 + 11 squares - 2 steps + table 10
    let queen = 900 + 300 + 2700 + 10;
    let bishop = 300 + 900 + 1100 - 60 + 10;
    assert_eq!(static_score(&squares, true, 0, 0), queen - bishop);
}

#[test]
fn king_moves_like_a_king() {
    let mut squares = [0u8; 64];
    squares[0] = 6;
    // king a1 (mine): 3 squares - 6 steps from the centre + table 20
    assert_eq!(static_score(&squares, true, 0, 0), 300 - 180 + 20);
    squares[0] = 0;
    squares[27] = 6;
    // king d4 (mine): 8 squares + table -40
    assert_eq!(static_score(&squares, true, 0, 0), 800 - 40);
}

#[test]
fn doubled_pawns_cost_per_extra_pawn() {
    let mut squares = kings();
    squares[8] = 1;
    let single = static_score(&squares, true, 0, 0);
    // a2 pawn: 100 + 2 pushes + centre 5 steps + table 0 + isolated 50
    assert_eq!(single, 100 + 200 - 150 + 0 + 50);
    squares[16] = 1;
    // second pawn on a3 blocks nothing (own pieces do not block):
    // a3: 100 + 1 push + centre 4 steps + table 0 + isolated 50, less 50 for
    // the doubled pawn.
    let doubled = static_score(&squares, true, 0, 0);
    assert_eq!(doubled, single + (100 + 100 - 120 + 0 + 50) - 50);
}

#[test]
fn pawn_push_is_blocked_by_enemy_only() {
    let mut squares = kings();
    squares[8] = 1;
    squares[16] = 8;
    // a2 pawn blocked by the knight on a3: no push at all.
    // knight a3 (theirs, table index 47): 300 + 4 jumps + centre 4 steps
    // + table -20; it attacks nothing.
    let pawn = 100 + 0 - 150 + 0 + 50;
    let knight = 300 + 400 - 120 - 20;
    assert_eq!(static_score(&squares, true, 0, 0), pawn - knight);
}

#[test]
fn mirrored_position_negates_the_score() {
    let mut squares = kings();
    squares[27] = 2;
    squares[44] = 10;
    squares[9] = 1;
    squares[10] = 1;
    squares[50] = 7;
    squares[21] = 3;
    squares[59] = 11;
    let flipped = mirrored(&squares);
    for black_to_move in [false, true] {
        assert_eq!(
            static_score(&flipped, black_to_move, 7, 11),
            -static_score(&squares, black_to_move, 11, 7)
        );
    }
}

#[test]
fn mirrored_board_negates_evaluation() {
    // The same game seen from the other side: colours exchanged, ranks
    // reflected, the same colour to move.
    let board = chess::Board::from_str("4k3/pp6/8/3n4/4P3/8/6PP/4K3 w - - 0 1").unwrap();
    let flipped = chess::Board::from_str("4k3/6pp/8/4p3/3N4/8/PP6/4K3 w - - 0 1").unwrap();
    let squares = weakfish::search::transposition::placement(&board);
    let other = weakfish::search::transposition::placement(&flipped);
    assert_eq!(other, mirrored(&squares));
    assert_eq!(static_score(&other, false, 4, 9), -static_score(&squares, false, 9, 4));
    assert_eq!(evaluate(&flipped), -evaluate(&board));
    assert_ne!(evaluate(&board), 0);
}

#[test]
fn checkmate_scores_minus_checkmate() {
    let board = chess::Board::from_str("R5k1/5ppp/8/8/8/8/8/4K3 b - - 0 1").unwrap();
    assert_eq!(board.status(), chess::BoardStatus::Checkmate);
    assert_eq!(evaluate(&board), -CHECKMATE);
}

#[test]
fn stalemate_scores_zero() {
    let board = chess::Board::from_str("7k/5Q2/6K1/8/8/8/8/8 b - - 0 1").unwrap();
    assert_eq!(board.status(), chess::BoardStatus::Stalemate);
    assert_eq!(evaluate(&board), 0);
}

#[test]
fn evaluation_matches_static_score_of_the_board() {
    let board = chess::Board::from_str("4k3/pp6/8/3n4/4P3/8/6PP/4K3 w - - 0 1").unwrap();
    let squares = weakfish::search::transposition::placement(&board);
    let theirs = chess::MoveGen::new_legal(&board).count();
    let mine = chess::MoveGen::new_legal(&board.null_move().unwrap()).count();
    assert_eq!(evaluate(&board), static_score(&squares, false, theirs, mine));
}

#[test]
fn evaluation_in_check_counts_no_moves_for_the_other_side() {
    let board = chess::Board::from_str("4k3/8/8/8/8/8/4r3/4K3 w - - 0 1").unwrap();
    assert!(board.null_move().is_none());
    let squares = weakfish::search::transposition::placement(&board);
    let theirs = chess::MoveGen::new_legal(&board).count();
    assert_eq!(evaluate(&board), static_score(&squares, false, theirs, 0));
}

#[test]
fn ongoing_scores_stay_inside_the_mate_sentinels() {
    let mut squares = [5u8; 64];
    for sq in 32..64 {
        squares[sq] = 11;
    }
    let score = static_score(&squares, false, usize::MAX, 0);
    assert!(-CHECKMATE < score && score < CHECKMATE);
}
