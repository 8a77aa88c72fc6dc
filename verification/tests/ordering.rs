use std::str::FromStr;
use weakfish::board::Move;
use weakfish::search::ordering::{move_group, mvvlva, order_by_priority, order_moves};
use weakfish::search::transposition::placement;

fn legal(board: &chess::Board) -> Vec<Move> {
    chess::MoveGen::new_legal(board)
        .map(|m| Move {
            source: m.get_source().to_index() as u8,
            dest: m.get_dest().to_index() as u8,
            promotion: m.get_promotion().map(|p| p.to_index() as u8),
        })
        .collect()
}

fn quiet(source: u8, dest: u8) -> Move {
    Move { source, dest, promotion: None }
}

#[test]
fn quiet_position_keeps_generation_order() {
    let board = chess::Board::default();
    let moves = legal(&board);
    assert_eq!(moves.len(), 20);
    assert_eq!(order_moves(&board, moves.clone()), moves);
}

#[test]
fn captures_come_first_by_capturing_piece() {
    let board = chess::Board::from_str("4k3/8/8/3p4/4P3/8/8/3RK3 w - - 0 1").unwrap();
    let moves = legal(&board);
    let ordered = order_moves(&board, moves.clone());
    assert_eq!(ordered.len(), moves.len());
    assert_eq!(ordered[0], quiet(28, 35));
    assert_eq!(ordered[1], quiet(3, 35));
    let rest: Vec<Move> =
        moves.iter().copied().filter(|m| *m != quiet(28, 35) && *m != quiet(3, 35)).collect();
    assert_eq!(ordered[2..], rest[..]);
}

#[test]
fn bishop_captures_before_knight_before_rook_before_queen_before_king() {
    // Every white piece can take the pawn on d5.
    let board = chess::Board::from_str("7k/8/4B3/Q2pR3/1NP1K3/8/8/8 w - - 0 1").unwrap();
    let moves = legal(&board);
    let ordered = order_moves(&board, moves.clone());
    let captures: Vec<Move> = ordered.iter().copied().filter(|m| m.dest == 35).collect();
    assert_eq!(
        captures,
        vec![
            quiet(26, 35),
            quiet(44, 35),
            quiet(25, 35),
            quiet(36, 35),
            quiet(32, 35),
            quiet(28, 35)
        ]
    );
    assert_eq!(ordered[..6], captures[..]);
    let rest: Vec<Move> = moves.iter().copied().filter(|m| m.dest != 35).collect();
    assert_eq!(ordered[6..], rest[..]);
    let mut sorted_in = moves.clone();
    let mut sorted_out = ordered.clone();
    sorted_in.sort_by_key(|m| (m.source, m.dest, m.promotion));
    sorted_out.sort_by_key(|m| (m.source, m.dest, m.promotion));
    assert_eq!(sorted_in, sorted_out);
}

#[test]
fn groups_are_numbered_by_capturing_piece() {
    let mut squares = [0u8; 64];
    squares[0] = 1;
    squares[1] = 3;
    squares[2] = 2;
    squares[3] = 4;
    squares[4] = 5;
    squares[5] = 6;
    squares[40] = 9;
    squares[41] = 3;
    for (source, group) in [(0u8, 0u8), (1, 1), (2, 2), (3, 3), (4, 4), (5, 5)] {
        assert_eq!(move_group(&squares, false, false, 0, quiet(source, 40)), group);
    }
    // own piece on the destination, empty destination, empty source
    assert_eq!(move_group(&squares, false, false, 0, quiet(0, 41)), 7);
    assert_eq!(move_group(&squares, false, false, 0, quiet(0, 20)), 7);
    assert_eq!(move_group(&squares, false, false, 0, quiet(30, 40)), 7);
    // with black to move the white pieces are the ones to take
    assert_eq!(move_group(&squares, true, false, 0, quiet(40, 41)), 1);
    assert_eq!(move_group(&squares, true, false, 0, quiet(0, 40)), 7);
    // squares off the board
    assert_eq!(move_group(&squares, false, false, 0, quiet(64, 40)), 7);
    assert_eq!(move_group(&squares, false, true, u64::MAX, quiet(64, 40)), 7);
    assert_eq!(move_group(&squares, false, false, 0, quiet(0, 200)), 7);
}

#[test]
fn checking_pieces_move_after_captures_in_a_checkmate() {
    let mut squares = [0u8; 64];
    squares[0] = 4;
    squares[9] = 2;
    squares[18] = 1;
    squares[27] = 8;
    let moves = vec![quiet(0, 1), quiet(9, 24), quiet(18, 27), quiet(9, 3)];
    let checking = 1u64 << 9;
    assert_eq!(move_group(&squares, false, true, checking, quiet(9, 24)), 6);
    assert_eq!(move_group(&squares, false, false, checking, quiet(9, 24)), 7);
    assert_eq!(
        order_by_priority(&squares, false, true, checking, &moves),
        vec![quiet(18, 27), quiet(9, 24), quiet(9, 3), quiet(0, 1)]
    );
    assert_eq!(
        order_by_priority(&squares, false, false, checking, &moves),
        vec![quiet(18, 27), quiet(0, 1), quiet(9, 24), quiet(9, 3)]
    );
}

#[test]
fn mvvlva_returns_the_captures_only() {
    let board = chess::Board::from_str("7k/8/4B3/Q2pR3/1NP1K3/8/8/8 w - - 0 1").unwrap();
    let squares = placement(&board);
    let moves = legal(&board);
    assert_eq!(
        mvvlva(&squares, false, &moves),
        vec![
            quiet(26, 35),
            quiet(44, 35),
            quiet(25, 35),
            quiet(36, 35),
            quiet(32, 35),
            quiet(28, 35)
        ]
    );
    assert_eq!(mvvlva(&squares, false, &Vec::new()), Vec::new());
}

#[test]
fn ordering_keeps_repeated_moves() {
    let squares = [0u8; 64];
    let moves = vec![quiet(1, 2), quiet(1, 2), quiet(3, 4)];
    assert_eq!(order_by_priority(&squares, false, false, 0, &moves), moves);
}

#[test]
fn mated_position_has_nothing_to_order() {
    let board = chess::Board::from_str("R5k1/5ppp/8/8/8/8/8/4K3 b - - 0 1").unwrap();
    assert_eq!(order_moves(&board, legal(&board)), Vec::new());
}
