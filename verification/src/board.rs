//! The boundary to the `chess` crate: the board type, its abstract state and
//! the calls that the engine makes on it.
//!
//! A [`chess::Board`] is opaque to the verifier. Everything proved about it
//! goes through [`board_state`], the plain-value description of a board, and
//! through the contracts of the functions below, which are assumed, not
//! proved.

use std::str::FromStr;
use vstd::prelude::*;

verus! {

/// The `chess` crate's board, carried as it is.
#[verifier::external_type_specification]
#[verifier::external_body]
pub struct ExBoard(chess::Board);

/// The `chess` crate's board builder, carried as it is.
#[verifier::external_type_specification]
#[verifier::external_body]
pub struct ExBoardBuilder(chess::BoardBuilder);

/// The `chess` crate's error, carried as it is; the library maps it to its
/// own [`crate::engine::EngineError`].
#[verifier::external_type_specification]
#[verifier::external_body]
pub struct ExChessError(chess::Error);

/// A move: source and destination square (0 = a1, 1 = b1, ..., 63 = h8) and
/// the promotion piece kind, if any.
#[derive(Clone, Copy, Debug, PartialEq, Eq)]
pub struct Move {
    pub source: u8,
    pub dest: u8,
    pub promotion: Option<u8>,
}

impl Move {
    /// Whether the squares and the promotion kind are in range.
    pub open spec fn well_formed(&self) -> bool {
        &&& self.source < 64
        &&& self.dest < 64
        &&& self.promotion matches Some(p) ==> p < 6
    }
}

/// Whether a game can go on from a position.
#[derive(Clone, Copy, Debug, PartialEq, Eq, Structural)]
pub enum BoardStatus {
    Ongoing,
    Stalemate,
    Checkmate,
}

/// Piece kinds, numbered as the `chess` crate numbers them.
pub const KIND_PAWN: u8 = 0;

pub const KIND_KNIGHT: u8 = 1;

pub const KIND_BISHOP: u8 = 2;

pub const KIND_ROOK: u8 = 3;

pub const KIND_QUEEN: u8 = 4;

pub const KIND_KING: u8 = 5;

/// The plain values that make up a board: what stands on each of the 64
/// squares, who is to move, and the castling and en-passant rights.
pub struct BoardState {
    /// Piece kind on each square (0 pawn .. 5 king), `None` where empty.
    pub pieces: Seq<Option<u8>>,
    /// Colour on each square (0 white, 1 black), `None` where empty.
    pub colors: Seq<Option<u8>>,
    pub black_to_move: bool,
    /// Castling rights of white and of black.
    pub castling: Seq<u8>,
    /// Square of the pawn that can be taken en passant.
    pub en_passant: Option<u8>,
}

/// What has been set up on a board builder: any pieces on any squares, with
/// nothing yet said about whether they make a position.
pub struct Setup {
    /// Piece kind on each square (0 pawn .. 5 king), `None` where empty.
    pub pieces: Seq<Option<u8>>,
    /// Colour on each square (0 white, 1 black), `None` where empty.
    pub colors: Seq<Option<u8>>,
    pub black_to_move: bool,
    /// Castling rights of white and of black.
    pub castling: Seq<u8>,
    /// File of the pawn that can be taken en passant.
    pub en_passant: Option<u8>,
}

/// The state that a board holds.
pub uninterp spec fn board_state(b: chess::Board) -> BoardState;

/// Whether a state passes the `chess` crate's own sanity check: one king a
/// side, the side not to move not in check, castling and en-passant rights
/// that the placement bears out.
pub uninterp spec fn sane(s: BoardState) -> bool;

/// Whether a board's stored sets of checking and pinned pieces are those
/// that its placement gives. The crate computes them when it builds a board
/// from a setup and keeps them up to date over legal moves and passes; a
/// board made in any other way may hold stale sets. Nothing but
/// [`build_board`], [`make_move`] and [`null_move`] gives a board this
/// standing.
pub uninterp spec fn sound(b: chess::Board) -> bool;

/// What a board builder holds.
pub uninterp spec fn setup_of(b: chess::BoardBuilder) -> Setup;

/// The setup that a string in Forsyth-Edwards notation describes, if it
/// describes one.
pub uninterp spec fn fen_setup(text: Seq<char>) -> Option<Setup>;

/// The state of the board that the crate builds from a setup, if the setup
/// passes its sanity check.
pub uninterp spec fn board_of_setup(s: Setup) -> Option<BoardState>;

/// The squares of the pieces that give check to the side to move, as a bit
/// set.
pub uninterp spec fn checking_of(s: BoardState) -> u64;

/// The legal moves in a position, in the order in which the move generator
/// yields them.
pub uninterp spec fn legal_moves_of(s: BoardState) -> Seq<Move>;

/// The position reached by playing a legal move.
pub uninterp spec fn state_after(s: BoardState, m: Move) -> BoardState;

/// A position written in Forsyth-Edwards notation.
pub uninterp spec fn fen_text(s: BoardState) -> Seq<char>;

/// The letter of a file, `a` for file 0.
pub open spec fn file_letter(file: int) -> char {
    if file == 0 {
        'a'
    } else if file == 1 {
        'b'
    } else if file == 2 {
        'c'
    } else if file == 3 {
        'd'
    } else if file == 4 {
        'e'
    } else if file == 5 {
        'f'
    } else if file == 6 {
        'g'
    } else {
        'h'
    }
}

/// The digit of a rank, `1` for rank 0.
pub open spec fn rank_digit(rank: int) -> char {
    if rank == 0 {
        '1'
    } else if rank == 1 {
        '2'
    } else if rank == 2 {
        '3'
    } else if rank == 3 {
        '4'
    } else if rank == 4 {
        '5'
    } else if rank == 5 {
        '6'
    } else if rank == 6 {
        '7'
    } else {
        '8'
    }
}

/// The letter of a piece kind.
pub open spec fn kind_letter(kind: int) -> char {
    if kind == 0 {
        'p'
    } else if kind == 1 {
        'n'
    } else if kind == 2 {
        'b'
    } else if kind == 3 {
        'r'
    } else if kind == 4 {
        'q'
    } else {
        'k'
    }
}

/// A square written as file letter and rank digit.
pub open spec fn square_text(sq: u8) -> Seq<char> {
    seq![file_letter(sq as int % 8), rank_digit(sq as int / 8)]
}

/// A move written in coordinate notation: source square, destination
/// square, and the letter of the promotion piece if there is one.
pub open spec fn text_of_move(m: Move) -> Seq<char> {
    square_text(m.source) + square_text(m.dest) + match m.promotion {
        Some(kind) => seq![kind_letter(kind as int)],
        None => Seq::empty(),
    }
}

/// The square that a file letter and a rank digit name.
pub open spec fn square_of_text(file: char, rank: char) -> Option<u8> {
    if 'a' as u32 <= file as u32 <= 'h' as u32 && '1' as u32 <= rank as u32 <= '8' as u32 {
        Some(((rank as u32 - '1' as u32) * 8 + (file as u32 - 'a' as u32)) as u8)
    } else {
        None
    }
}

/// The piece kind that a promotion letter names: queen, rook, knight or
/// bishop.
pub open spec fn promotion_of_text(letter: char) -> Option<u8> {
    if letter == 'q' {
        Some(KIND_QUEEN)
    } else if letter == 'r' {
        Some(KIND_ROOK)
    } else if letter == 'n' {
        Some(KIND_KNIGHT)
    } else if letter == 'b' {
        Some(KIND_BISHOP)
    } else {
        None
    }
}

/// The move that a string in coordinate notation describes, if it describes
/// one: two squares, and in a string of exactly five characters a promotion
/// letter. Characters after the fifth are passed over.
pub open spec fn move_of_text(text: Seq<char>) -> Option<Move> {
    if text.len() < 4 {
        None
    } else {
        match (square_of_text(text[0], text[1]), square_of_text(text[2], text[3])) {
            (Some(source), Some(dest)) => if text.len() == 5 {
                match promotion_of_text(text[4]) {
                    Some(kind) => Some(Move { source, dest, promotion: Some(kind) }),
                    None => None,
                }
            } else {
                Some(Move { source, dest, promotion: None })
            },
            _ => None,
        }
    }
}

/// Status of a position: ongoing while a legal move exists, otherwise
/// checkmate if the side to move is in check and stalemate if not.
pub open spec fn status_of(s: BoardState) -> BoardStatus {
    if legal_moves_of(s).len() > 0 {
        BoardStatus::Ongoing
    } else if checking_of(s) == 0 {
        BoardStatus::Stalemate
    } else {
        BoardStatus::Checkmate
    }
}

/// The most pieces that a side can have for the crate's move generator,
/// which keeps one entry for each piece of the side to move and up to two
/// for en-passant captures in a list of eighteen.
pub const SIDE_LIMIT: u8 = 16;

/// Whether a square holds a piece of the given colour.
pub open spec fn stands(s: BoardState, sq: int, black: bool) -> bool {
    s.pieces[sq] is Some && s.colors[sq] == Some(
        if black {
            1u8
        } else {
            0u8
        },
    )
}

/// How many of the first `n` squares hold a piece of the given colour.
pub open spec fn count_below(s: BoardState, black: bool, n: int) -> int
    decreases n,
{
    if n <= 0 {
        0
    } else if stands(s, n - 1, black) {
        count_below(s, black, n - 1) + 1
    } else {
        count_below(s, black, n - 1)
    }
}

/// How many pieces a side has.
pub open spec fn piece_count(s: BoardState, black: bool) -> int {
    count_below(s, black, 64)
}

/// Whether neither side has more than [`SIDE_LIMIT`] pieces.
pub open spec fn roomy(s: BoardState) -> bool {
    piece_count(s, false) <= SIDE_LIMIT && piece_count(s, true) <= SIDE_LIMIT
}

/// Whether the engine can play on a board: its stored sets are sound, it
/// passes the crate's sanity check, and neither side has too many pieces
/// for the move generator.
pub open spec fn playable(b: chess::Board) -> bool {
    sound(b) && sane(board_state(b)) && roomy(board_state(b))
}

/// The setup that the crate reads off a board: the pieces that stand on it
/// with their colours, the side to move, the castling rights, and the file
/// of the en-passant pawn.
pub open spec fn setup_of_state(s: BoardState) -> Setup {
    Setup {
        pieces: s.pieces,
        colors: Seq::new(
            s.colors.len(),
            |sq: int|
                if s.pieces[sq] is Some {
                    s.colors[sq]
                } else {
                    None
                },
        ),
        black_to_move: s.black_to_move,
        castling: s.castling,
        en_passant: match s.en_passant {
            Some(sq) => Some((sq % 8) as u8),
            None => None,
        },
    }
}

/// A pass changes no piece, so it changes no count.
pub proof fn lemma_pass_keeps_counts(s: BoardState, black: bool, n: int)
    ensures
        count_below(passed_state(s), black, n) == count_below(s, black, n),
    decreases n,
{
    if n > 0 {
        lemma_pass_keeps_counts(s, black, n - 1);
    }
}

/// Whether a setup has a king of the given colour.
pub open spec fn has_king(s: Setup, black: bool) -> bool {
    exists|sq: int|
        0 <= sq < 64 && #[trigger] s.pieces[sq] == Some(KIND_KING) && s.colors[sq] == Some(
            if black {
                1u8
            } else {
                0u8
            },
        )
}

/// The position after the side to move passes: the other side is to move and
/// no en-passant capture is possible.
pub open spec fn passed_state(s: BoardState) -> BoardState {
    BoardState { black_to_move: !s.black_to_move, en_passant: None, ..s }
}

/// `Board::piece_on`: the kind of the piece on a square, as its index in the
/// crate's numbering, which is below 6.
#[verifier::external_body]
pub(crate) fn piece_on(b: &chess::Board, square: u8) -> (r: Option<u8>)
    requires
        square < 64,
    ensures
        r == board_state(*b).pieces[square as int],
        r matches Some(k) ==> k < 6,
{
    match b.piece_on(chess::ALL_SQUARES[square as usize]) {
        Some(p) => Some(p.to_index() as u8),
        None => None,
    }
}

/// `Board::color_on`: the colour of the piece on a square, 0 for white and 1
/// for black.
#[verifier::external_body]
pub(crate) fn color_on(b: &chess::Board, square: u8) -> (r: Option<u8>)
    requires
        square < 64,
    ensures
        r == board_state(*b).colors[square as int],
        r matches Some(c) ==> c < 2,
{
    match b.color_on(chess::ALL_SQUARES[square as usize]) {
        Some(c) => Some(c.to_index() as u8),
        None => None,
    }
}

/// `Board::side_to_move`: whether black is to move.
#[verifier::external_body]
pub(crate) fn black_to_move(b: &chess::Board) -> (r: bool)
    ensures
        r == board_state(*b).black_to_move,
{
    match b.side_to_move() {
        chess::Color::White => false,
        chess::Color::Black => true,
    }
}

/// `Board::checkers`: the stored bit set of the pieces giving check. On a
/// sound board it is the set that the placement gives.
#[verifier::external_body]
pub(crate) fn checking(b: &chess::Board) -> (r: u64)
    requires
        playable(*b),
    ensures
        r == checking_of(board_state(*b)),
{
    b.checkers().0
}

/// `Board::status`: the crate counts the legal moves and, where there is
/// none, looks whether any piece gives check.
#[verifier::external_body]
pub(crate) fn status(b: &chess::Board) -> (r: BoardStatus)
    requires
        playable(*b),
    ensures
        r == status_of(board_state(*b)),
{
    match b.status() {
        chess::BoardStatus::Ongoing => BoardStatus::Ongoing,
        chess::BoardStatus::Stalemate => BoardStatus::Stalemate,
        chess::BoardStatus::Checkmate => BoardStatus::Checkmate,
    }
}

/// `MoveGen::new_legal`, run to its end: the legal moves in generation order.
/// On a playable board they depend on the board's state alone; their
/// squares are squares of the board and their promotions piece kinds. The
/// generator reads the stored check and pin sets, and its list has room for
/// the pieces of a side within [`SIDE_LIMIT`] only.
#[verifier::external_body]
pub(crate) fn legal_moves(b: &chess::Board) -> (r: Vec<Move>)
    requires
        playable(*b),
    ensures
        r@ == legal_moves_of(board_state(*b)),
        forall|i: int| 0 <= i < r.len() ==> (#[trigger] r[i]).well_formed(),
{
    let mut moves = Vec::new();
    for m in chess::MoveGen::new_legal(b) {
        let promotion = match m.get_promotion() {
            Some(p) => Some(p.to_index() as u8),
            None => None,
        };
        let source = m.get_source().to_index() as u8;
        moves.push(Move { source, dest: m.get_dest().to_index() as u8, promotion });
    }
    moves
}

/// `Board::make_move_new`, for a legal move on a playable board only: the
/// crate leaves the result of any other move undefined. A legal move leads
/// to a sound and sane board again, and adds no piece to either side.
#[verifier::external_body]
pub(crate) fn make_move(b: &chess::Board, m: Move) -> (r: chess::Board)
    requires
        playable(*b),
        legal_moves_of(board_state(*b)).contains(m),
    ensures
        board_state(r) == state_after(board_state(*b), m),
        sound(r),
        sane(board_state(r)),
        piece_count(board_state(r), false) <= piece_count(board_state(*b), false),
        piece_count(board_state(r), true) <= piece_count(board_state(*b), true),
{
    let promotion = match m.promotion {
        Some(p) => Some(chess::ALL_PIECES[p as usize]),
        None => None,
    };
    let source = chess::ALL_SQUARES[m.source as usize];
    b.make_move_new(chess::ChessMove::new(source, chess::ALL_SQUARES[m.dest as usize], promotion))
}

/// `Board::null_move`: refused while the side to move is in check; otherwise
/// the same board with the other side to move and the en-passant right gone,
/// which is sane because the side that passed is not in check. The crate
/// computes the check and pin sets of the result anew.
#[verifier::external_body]
pub(crate) fn null_move(b: &chess::Board) -> (r: Option<chess::Board>)
    requires
        playable(*b),
    ensures
        r is None <==> checking_of(board_state(*b)) != 0,
        r matches Some(n) ==> board_state(n) == passed_state(board_state(*b)) && sound(n)
            && sane(board_state(n)),
{
    b.null_move()
}

/// `BoardBuilder::from_str`: reads a setup in Forsyth-Edwards notation. The
/// text must be ASCII: on other text the crate's square parser can index
/// past the end of its buffer.
#[verifier::external_body]
pub(crate) fn parse_setup(text: &str) -> (r: Result<chess::BoardBuilder, chess::Error>)
    requires
        text.is_ascii(),
    ensures
        r is Ok <==> fen_setup(text@) is Some,
        r matches Ok(b) ==> fen_setup(text@) == Some(setup_of(b)),
{
    chess::BoardBuilder::from_str(text)
}

/// `BoardBuilder`'s `Index<Square>`: the kind and colour of the piece set up
/// on a square.
#[verifier::external_body]
pub(crate) fn setup_piece(b: &chess::BoardBuilder, square: u8) -> (r: Option<(u8, u8)>)
    requires
        square < 64,
    ensures
        match r {
            Some((kind, color)) => setup_of(*b).pieces[square as int] == Some(kind) && setup_of(
                *b,
            ).colors[square as int] == Some(color),
            None => setup_of(*b).pieces[square as int] is None && setup_of(
                *b,
            ).colors[square as int] is None,
        },
{
    match b[chess::ALL_SQUARES[square as usize]] {
        Some((p, c)) => Some((p.to_index() as u8, c.to_index() as u8)),
        None => None,
    }
}

/// `BoardBuilder::get_side_to_move`: whether black is set to move.
#[verifier::external_body]
pub(crate) fn setup_black_to_move(b: &chess::BoardBuilder) -> (r: bool)
    ensures
        r == setup_of(*b).black_to_move,
{
    match b.get_side_to_move() {
        chess::Color::White => false,
        chess::Color::Black => true,
    }
}

/// `Board::try_from(&BoardBuilder)`: builds the board, computes its check
/// and pin sets, and accepts it if it passes the crate's sanity check. The
/// side to move must have a king: before the check the crate looks for the
/// pieces that attack that king, and without one it reads outside its
/// tables.
#[verifier::external_body]
pub(crate) fn build_board(b: &chess::BoardBuilder) -> (r: Result<chess::Board, chess::Error>)
    requires
        has_king(setup_of(*b), setup_of(*b).black_to_move),
    ensures
        r is Ok <==> board_of_setup(setup_of(*b)) is Some,
        r matches Ok(board) ==> board_of_setup(setup_of(*b)) == Some(board_state(board))
            && sound(board) && sane(board_state(board)),
{
    chess::Board::try_from(b)
}

/// `BoardBuilder::from(&Board)`: reads the setup off a board, whatever its
/// standing. A board's occupancy is kept as the difference of the two
/// colours' sets, so every piece that the crate finds has a colour.
#[verifier::external_body]
pub(crate) fn setup_from(b: &chess::Board) -> (r: chess::BoardBuilder)
    ensures
        setup_of(r) == setup_of_state(board_state(*b)),
{
    chess::BoardBuilder::from(b)
}

/// `Board`'s `Display`: the position in Forsyth-Edwards notation.
#[verifier::external_body]
pub(crate) fn board_text(b: &chess::Board) -> (r: String)
    requires
        playable(*b),
    ensures
        r@ == fen_text(board_state(*b)),
{
    b.to_string()
}

/// `ChessMove::from_str`: reads a move in coordinate notation. The text must
/// be ASCII, for the same reason as in [`parse_setup`].
#[verifier::external_body]
pub(crate) fn parse_move(text: &str) -> (r: Result<Move, chess::Error>)
    requires
        text.is_ascii(),
    ensures
        r is Ok <==> move_of_text(text@) is Some,
        r matches Ok(m) ==> move_of_text(text@) == Some(m),
{
    match chess::ChessMove::from_str(text) {
        Ok(m) => {
            let promotion = match m.get_promotion() {
                Some(p) => Some(p.to_index() as u8),
                None => None,
            };
            let source = m.get_source().to_index() as u8;
            Ok(Move { source, dest: m.get_dest().to_index() as u8, promotion })
        },
        Err(e) => Err(e),
    }
}

/// `ChessMove`'s `Display`: the move in coordinate notation.
#[verifier::external_body]
pub(crate) fn move_text(m: Move) -> (r: String)
    requires
        m.well_formed(),
    ensures
        r@ == text_of_move(m),
{
    let promotion = match m.promotion {
        Some(p) => Some(chess::ALL_PIECES[p as usize]),
        None => None,
    };
    let source = chess::ALL_SQUARES[m.source as usize];
    chess::ChessMove::new(source, chess::ALL_SQUARES[m.dest as usize], promotion).to_string()
}

} // verus!
