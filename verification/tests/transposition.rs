use std::collections::HashMap;
use std::str::FromStr;
use weakfish::search::transposition::{
    get, piece_index, placement, put, Bound, TableEntry, ANSWER_ANY_DEPTH, TT,
};

fn numbered_keys() -> TT {
    let mut table = [[0u64; 13]; 64];
    for sq in 0..64 {
        for code in 1..13 {
            table[sq][code] = ((sq * 13 + code + 1) as u64).wrapping_mul(0x9E37_79B9_7F4A_7C15);
        }
    }
    TT { table, black_to_move: 0xDEAD_BEEF_0BAD_F00D }
}

fn expected_hash(keys: &TT, board: &chess::Board) -> u64 {
    let mut hash = 0u64;
    if board.side_to_move() == chess::Color::Black {
        hash ^= keys.black_to_move;
    }
    for sq in chess::ALL_SQUARES {
        if let Some(piece) = board.piece_on(sq) {
            let black = board.color_on(sq) == Some(chess::Color::Black);
            let code = piece.to_index() + 1 + if black { 6 } else { 0 };
            hash ^= keys.table[sq.to_index()][code];
        }
    }
    hash
}

#[test]
fn piece_codes_of_the_starting_position() {
    let board = chess::Board::default();
    assert_eq!(piece_index(0, 0, &board), 4);
    assert_eq!(piece_index(0, 1, &board), 2);
    assert_eq!(piece_index(0, 2, &board), 3);
    assert_eq!(piece_index(0, 3, &board), 5);
    assert_eq!(piece_index(0, 4, &board), 6);
    assert_eq!(piece_index(0, 8, &board), 1);
    assert_eq!(piece_index(0, 27, &board), 0);
    assert_eq!(piece_index(0, 48, &board), 7);
    assert_eq!(piece_index(0, 57, &board), 8);
    assert_eq!(piece_index(0, 58, &board), 9);
    assert_eq!(piece_index(0, 56, &board), 10);
    assert_eq!(piece_index(0, 59, &board), 11);
    assert_eq!(piece_index(0, 60, &board), 12);
}

#[test]
fn piece_code_ignores_the_piece_argument() {
    let board = chess::Board::default();
    assert_eq!(piece_index(5, 8, &board), 1);
}

#[test]
fn placement_of_the_starting_position() {
    let squares = placement(&chess::Board::default());
    let back = [4u8, 2, 3, 5, 6, 3, 2, 4];
    for file in 0..8 {
        assert_eq!(squares[file], back[file]);
        assert_eq!(squares[8 + file], 1);
        assert_eq!(squares[48 + file], 7);
        assert_eq!(squares[56 + file], back[file] + 6);
    }
    for sq in 16..48 {
        assert_eq!(squares[sq], 0);
    }
}

#[test]
fn zero_table_hashes_everything_to_zero() {
    let keys = TT::new();
    assert_eq!(keys.black_to_move, 0);
    assert!(keys.table.iter().all(|row| row.iter().all(|key| *key == 0)));
    assert_eq!(keys.hash(&chess::Board::default()), 0);
}

#[test]
fn hash_combines_the_keys_of_what_is_present() {
    let keys = numbered_keys();
    let start = chess::Board::default();
    assert_eq!(keys.hash(&start), expected_hash(&keys, &start));
    let later = chess::Board::from_str("4k3/pp6/8/3n4/4P3/8/6PP/4K3 b - - 0 1").unwrap();
    assert_eq!(keys.hash(&later), expected_hash(&keys, &later));
    assert_ne!(keys.hash(&start), keys.hash(&later));
}

#[test]
fn hash_tells_the_side_to_move() {
    let keys = numbered_keys();
    let white = chess::Board::from_str("4k3/8/8/8/8/8/8/4K3 w - - 0 1").unwrap();
    let black = chess::Board::from_str("4k3/8/8/8/8/8/8/4K3 b - - 0 1").unwrap();
    assert_eq!(keys.hash(&white) ^ keys.hash(&black), keys.black_to_move);
}

#[test]
fn hash_of_bare_kings_is_two_keys() {
    let keys = numbered_keys();
    let board = chess::Board::from_str("4k3/8/8/8/8/8/8/4K3 w - - 0 1").unwrap();
    assert_eq!(keys.hash(&board), keys.table[4][6] ^ keys.table[60][12]);
}

#[test]
fn table_is_made_of_its_keys_in_drawing_order() {
    let mut draws = [0u64; 769];
    for (i, key) in draws.iter_mut().enumerate() {
        *key = 1000 + i as u64;
    }
    let keys = TT::from_keys(&draws);
    assert_eq!(keys.black_to_move, 1768);
    for sq in 0..64 {
        assert_eq!(keys.table[sq][0], 0);
        for code in 1..13 {
            assert_eq!(keys.table[sq][code], 1000 + (sq * 12 + code - 1) as u64);
        }
    }
    assert_eq!(keys.table[0][1], 1000);
    assert_eq!(keys.table[3][2], 1037);
    assert_eq!(keys.table[63][12], 1767);
    let zero = TT::from_keys(&[0u64; 769]);
    assert_eq!(zero.table, TT::new().table);
    assert_eq!(zero.black_to_move, 0);
}

#[test]
fn fresh_keys_leave_column_zero_empty() {
    let board = chess::Board::default();
    let keys = TT::from_board(&board);
    assert!(keys.table.iter().all(|row| row[0] == 0));
    let mut again = TT::new();
    again.update(&board);
    assert!(again.table.iter().all(|row| row[0] == 0));
    // 768 draws of 64 bits: that two tables agree, or that one stays zero,
    // has no chance worth the name.
    assert!(again.table != keys.table);
    assert!(keys.table.iter().any(|row| row[1..].iter().any(|key| *key != 0)));
}

#[test]
fn stored_score_reads_back() {
    let mut cache: HashMap<u64, TableEntry> = HashMap::new();
    assert_eq!(get(&cache, 42, 3), None);
    put(&mut cache, 42, 3, -1250, 0, Bound::Exact);
    assert_eq!(get(&cache, 42, 3), Some(-1250));
    assert_eq!(get(&cache, 43, 3), None);
    let entry = cache.get(&42).unwrap();
    assert_eq!((entry.depth, entry.score, entry.age, entry.bound), (3, -1250, 0, Bound::Exact));
}

#[test]
fn stored_score_stays_until_overwritten() {
    let mut cache: HashMap<u64, TableEntry> = HashMap::new();
    put(&mut cache, 7, 1, 100, 0, Bound::Lower);
    put(&mut cache, 8, 5, 900, 2, Bound::Upper);
    assert_eq!(get(&cache, 7, 1), Some(100));
    put(&mut cache, 7, 9, -300, 1, Bound::Exact);
    assert_eq!(get(&cache, 7, 1), Some(-300));
    assert_eq!(get(&cache, 8, 1), Some(900));
    assert_eq!(cache.len(), 2);
}

#[test]
fn lookup_answers_whatever_the_depth_and_the_bound() {
    // The flag is set: a shallow entry answers for a deep search, and a
    // bound is returned like a value.
    assert!(ANSWER_ANY_DEPTH);
    let mut cache: HashMap<u64, TableEntry> = HashMap::new();
    put(&mut cache, 1, 0, 55, 0, Bound::Lower);
    put(&mut cache, 2, 4, -66, 0, Bound::Upper);
    for depth in [0u8, 1, 4, 5, 255] {
        assert_eq!(get(&cache, 1, depth), Some(55));
        assert_eq!(get(&cache, 2, depth), Some(-66));
        assert_eq!(get(&cache, 3, depth), None);
    }
}

#[test]
fn table_entry_keeps_its_fields() {
    let entry = TableEntry::new(4, 77, 1, Bound::Upper);
    assert_eq!((entry.depth, entry.score, entry.age, entry.bound), (4, 77, 1, Bound::Upper));
}
