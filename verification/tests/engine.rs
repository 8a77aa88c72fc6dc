use std::collections::HashMap;
use std::str::FromStr;
use weakfish::board::Move;
use weakfish::engine::{
    accept_board, is_legal, play_moves, read_move, read_position, same_move, within_limits,
    EngineError, Reply, Weakfish, SEARCH_DEPTH,
};
use weakfish::uci::parse;
use weakfish::search::transposition::{TableEntry, TT};
use weakfish::uci::{Memory, Status};

const START: &str = "rnbqkbnr/pppppppp/8/8/8/8/PPPPPPPP/RNBQKBNR w KQkq - 0 1";
const MATE_IN_ONE: &str = "6k1/5ppp/8/8/8/8/8/R3K3 w - - 0 1";

fn words(list: &[&str]) -> Vec<String> {
    list.iter().map(|w| w.to_string()).collect()
}

#[test]
fn new_engine_is_not_interrupted() {
    assert!(!Weakfish::new().is_interruption);
}

#[test]
fn quit_raises_the_flag() {
    let mut engine = Weakfish::new();
    engine.quit();
    assert!(engine.is_interruption);
    engine.quit();
    assert!(engine.is_interruption);
}

#[test]
fn position_text_is_read() {
    let board = read_position(START).ok().unwrap();
    assert_eq!(board, chess::Board::default());
    let other = read_position(MATE_IN_ONE).ok().unwrap();
    assert_eq!(other, chess::Board::from_str(MATE_IN_ONE).unwrap());
    assert_ne!(other, board);
}

#[test]
fn bad_position_text_is_refused() {
    for text in ["", "hello", "8/8/8/8/8/8/8/8 w - - 0 1", "4k3/8/8/8/8/8/8/4K3 x - - 0 1", "é4k3/8/8/8/8/8/8/4K3 w - é1 0 1"] {
        assert_eq!(read_position(text).err(), Some(EngineError::InvalidPosition));
    }
}

#[test]
fn position_without_the_movers_king_is_refused() {
    for text in [
        "4K3/8/8/8/8/8/8/8 b - - 0 1",
        "8/8/8/8/8/8/8/4k3 w - - 0 1",
        "8/8/8/8/8/8/8/8 b - - 0 1",
        "K7/8/8/8/8/8/8/7k/Q7 w - - 0 1",
    ] {
        assert_eq!(read_position(text).err(), Some(EngineError::InvalidPosition), "{}", text);
    }
    // the side not to move lacks its king: the crate's own check refuses it
    assert_eq!(
        read_position("4K3/8/8/8/8/8/8/8 w - - 0 1").err(),
        Some(EngineError::InvalidPosition)
    );
}

#[test]
fn only_sane_boards_are_accepted() {
    let board = chess::Board::default();
    assert_eq!(accept_board(board), Ok(board));
    let two_kings =
        board.set_piece(chess::Piece::King, chess::Color::White, chess::Square::E4).unwrap();
    assert_eq!(accept_board(two_kings), Err(EngineError::InvalidPosition));
}

#[test]
fn crowded_position_is_refused() {
    // 24 white pawns with a push each are more than the move generator's
    // list holds.
    let crowded = "7k/8/PPPPPPPP/8/PPPPPPPP/8/PPPPPPPP/K7 w - - 0 1";
    assert_eq!(read_position(crowded).err(), Some(EngineError::InvalidPosition));
    assert_eq!(play_moves(crowded, &Vec::new()), Err(EngineError::InvalidPosition));
    let mut cache = HashMap::new();
    assert_eq!(
        Weakfish::new().go(crowded.to_string(), 1, &TT::new(), &mut cache),
        Err(EngineError::InvalidPosition)
    );
    // seventeen on one side are one too many, sixteen are not
    let seventeen = "4k3/8/8/8/7P/PPPPPPPP/RNBQ1BNR/4K3 w - - 0 1";
    assert_eq!(read_position(seventeen).err(), Some(EngineError::InvalidPosition));
    let black_seventeen = "4k3/rnbq1bnr/pppppppp/7p/8/8/8/4K3 w - - 0 1";
    assert_eq!(read_position(black_seventeen).err(), Some(EngineError::InvalidPosition));
    let sixteen = "4k3/8/8/8/8/PPPPPPPP/RNBQ1BNR/4K3 w - - 0 1";
    assert!(read_position(sixteen).is_ok());
}

#[test]
fn piece_limit_is_sixteen_a_side() {
    assert!(within_limits(&chess::Board::default()));
    let mut board = chess::Board::default();
    for sq in [chess::Square::A3, chess::Square::B3] {
        board = board.set_piece(chess::Piece::Knight, chess::Color::White, sq).unwrap();
    }
    assert!(!within_limits(&board));
    assert_eq!(accept_board(board), Err(EngineError::InvalidPosition));
}

#[test]
fn accepted_board_is_built_anew() {
    // An illegal move leaves a board whose record of the checking pieces is
    // stale; accepting it computes the record from the placement.
    let start = chess::Board::from_str("4k3/8/8/8/8/3n4/P7/4K3 w - - 0 1").unwrap();
    let stale = start
        .make_move_new(chess::ChessMove::from_str("a2a3").unwrap())
        .make_move_new(chess::ChessMove::from_str("e8e7").unwrap());
    assert_eq!(*stale.checkers(), chess::EMPTY);
    let fresh = accept_board(stale).unwrap();
    assert_eq!(fresh, chess::Board::from_str("8/4k3/8/8/8/P2n4/8/4K3 w - - 0 1").unwrap());
    assert_ne!(*fresh.checkers(), chess::EMPTY);
    assert!(!is_legal(&fresh, &Move { source: 16, dest: 24, promotion: None }));
    assert!(is_legal(&fresh, &Move { source: 4, dest: 3, promotion: None }));
}

#[test]
fn startpos_command_is_played() {
    let mut engine = Weakfish::new();
    let mut mem = Memory::new();
    let (status, _) = parse("position startpos moves e2e4 e7e5\n".to_string(), &mut mem);
    let reply = engine.handle(status, &mut mem, &TT::new(), &mut HashMap::new());
    assert!(matches!(reply, Reply::Nothing));
    assert_eq!(mem.pos, "rnbqkbnr/pppp1ppp/8/4p3/4P3/8/PPPP1PPP/RNBQKBNR w KQkq - 0 1");
}

#[test]
fn move_text_is_read() {
    assert_eq!(read_move("e2e4"), Ok(Move { source: 12, dest: 28, promotion: None }));
    assert_eq!(read_move("a7a8q"), Ok(Move { source: 48, dest: 56, promotion: Some(4) }));
    assert_eq!(read_move("h2h1n"), Ok(Move { source: 15, dest: 7, promotion: Some(1) }));
}

#[test]
fn bad_move_text_is_refused() {
    for text in ["", "e2", "e9e4", "i2e4", "moves", "e7e8x", "é2e4", "eé4"] {
        assert_eq!(read_move(text), Err(EngineError::InvalidMove));
    }
}

#[test]
fn moves_compare_by_their_fields() {
    let a = Move { source: 12, dest: 28, promotion: None };
    assert!(same_move(&a, &Move { source: 12, dest: 28, promotion: None }));
    assert!(!same_move(&a, &Move { source: 12, dest: 20, promotion: None }));
    assert!(!same_move(&a, &Move { source: 11, dest: 28, promotion: None }));
    assert!(!same_move(&a, &Move { source: 12, dest: 28, promotion: Some(4) }));
    let q = Move { source: 48, dest: 56, promotion: Some(4) };
    assert!(same_move(&q, &q));
    assert!(!same_move(&q, &Move { source: 48, dest: 56, promotion: Some(3) }));
}

#[test]
fn legality_follows_the_move_generator() {
    let board = chess::Board::default();
    assert!(is_legal(&board, &Move { source: 12, dest: 28, promotion: None }));
    assert!(is_legal(&board, &Move { source: 1, dest: 18, promotion: None }));
    assert!(!is_legal(&board, &Move { source: 12, dest: 36, promotion: None }));
    assert!(!is_legal(&board, &Move { source: 12, dest: 28, promotion: Some(4) }));
    assert!(!is_legal(&board, &Move { source: 200, dest: 28, promotion: None }));
}

#[test]
fn moves_are_played_in_turn() {
    let text = play_moves(START, &words(&["e2e4", "e7e5", "g1f3"])).unwrap();
    let mut board = chess::Board::default();
    for m in ["e2e4", "e7e5", "g1f3"] {
        board = board.make_move_new(chess::ChessMove::from_str(m).unwrap());
    }
    assert_eq!(text, board.to_string());
    assert_eq!(chess::Board::from_str(&text).unwrap(), board);
    assert_eq!(play_moves(START, &Vec::new()).unwrap(), chess::Board::default().to_string());
}

#[test]
fn playing_stops_at_the_first_error() {
    assert_eq!(play_moves("nonsense", &words(&["e2e4"])), Err(EngineError::InvalidPosition));
    assert_eq!(play_moves(START, &words(&["moves", "e2e4"])), Err(EngineError::InvalidMove));
    assert_eq!(play_moves(START, &words(&["e2e4", "e2e4"])), Err(EngineError::IllegalMove));
    assert_eq!(play_moves(START, &words(&["e2e5", "zz"])), Err(EngineError::IllegalMove));
    assert_eq!(play_moves(START, &words(&["e2e4", "zz", "e2e4"])), Err(EngineError::InvalidMove));
}

#[test]
fn go_returns_the_mating_move() {
    let engine = Weakfish::new();
    let keys = TT::from_board(&chess::Board::default());
    let mut cache: HashMap<u64, TableEntry> = HashMap::new();
    assert_eq!(engine.go(MATE_IN_ONE.to_string(), 1, &keys, &mut cache), Ok("a1a8".to_string()));
    assert_eq!(cache.len(), 1);
}

#[test]
fn go_at_depth_one_plays_an_opening_move() {
    let engine = Weakfish::new();
    let keys = TT::from_board(&chess::Board::default());
    let mut cache = HashMap::new();
    let text = engine.go(START.to_string(), 1, &keys, &mut cache).unwrap();
    let played = chess::ChessMove::from_str(&text).unwrap();
    assert!(chess::MoveGen::new_legal(&chess::Board::default()).any(|m| m == played));
}

#[test]
fn go_refuses_what_is_no_position() {
    let engine = Weakfish::new();
    let keys = TT::new();
    let mut cache = HashMap::new();
    assert_eq!(engine.go(String::new(), 1, &keys, &mut cache), Err(EngineError::InvalidPosition));
    assert!(cache.is_empty());
}

#[test]
fn go_without_a_move_says_so() {
    let keys = TT::new();
    let mut cache = HashMap::new();
    let mut engine = Weakfish::new();
    let mated = "R5k1/5ppp/8/8/8/8/8/4K3 b - - 0 1".to_string();
    assert_eq!(engine.go(mated, 2, &keys, &mut cache), Err(EngineError::NoMove));
    assert_eq!(engine.go(START.to_string(), 0, &keys, &mut cache), Err(EngineError::NoMove));
    engine.quit();
    assert_eq!(engine.go(START.to_string(), 2, &keys, &mut cache), Err(EngineError::NoMove));
    assert!(cache.is_empty());
}

#[test]
fn handle_records_the_position_reached() {
    let mut engine = Weakfish::new();
    let mut mem = Memory::new();
    let keys = TT::new();
    let mut cache = HashMap::new();
    let status = Status::Position(START.to_string(), words(&["e2e4"]));
    assert!(matches!(engine.handle(status, &mut mem, &keys, &mut cache), Reply::Nothing));
    assert_eq!(mem.pos, "rnbqkbnr/pppppppp/8/8/4P3/8/PPPP1PPP/RNBQKBNR b KQkq - 0 1");
    let bad = Status::Position(START.to_string(), words(&["moves", "e2e4"]));
    assert!(matches!(
        engine.handle(bad, &mut mem, &keys, &mut cache),
        Reply::Failed(EngineError::InvalidMove)
    ));
    assert_eq!(mem.pos, "rnbqkbnr/pppppppp/8/8/4P3/8/PPPP1PPP/RNBQKBNR b KQkq - 0 1");
    assert!(cache.is_empty());
}

#[test]
fn handle_passes_over_continue_and_stops_on_quit() {
    let mut engine = Weakfish::new();
    let mut mem = Memory::new();
    let keys = TT::new();
    let mut cache = HashMap::new();
    assert!(matches!(engine.handle(Status::Continue, &mut mem, &keys, &mut cache), Reply::Nothing));
    assert!(!engine.is_interruption);
    assert!(matches!(engine.handle(Status::Quit, &mut mem, &keys, &mut cache), Reply::Stop));
    assert!(engine.is_interruption);
}

#[test]
fn handle_answers_go() {
    let mut engine = Weakfish::new();
    let mut mem = Memory::new();
    let keys = TT::new();
    let mut cache = HashMap::new();
    assert_eq!(SEARCH_DEPTH, 7);
    // nothing recorded yet: the empty text is no position
    assert!(matches!(
        engine.handle(Status::Go(6), &mut mem, &keys, &mut cache),
        Reply::Failed(EngineError::InvalidPosition)
    ));
    // With a zero key table every position hashes alike: the search is
    // over as soon as one position is stored, and what it returns is some
    // legal move.
    mem.pos = MATE_IN_ONE.to_string();
    match engine.handle(Status::Go(6), &mut mem, &keys, &mut cache) {
        Reply::Line(line) => {
            let text = line.strip_prefix("bestmove ").unwrap();
            let played = chess::ChessMove::from_str(text).unwrap();
            assert!(chess::Board::from_str(MATE_IN_ONE).unwrap().legal(played));
        }
        _ => panic!("no move"),
    }
    assert_eq!(mem.pos, MATE_IN_ONE);
    engine.quit();
    assert!(matches!(
        engine.handle(Status::Go(6), &mut mem, &keys, &mut cache),
        Reply::Failed(EngineError::NoMove)
    ));
}
