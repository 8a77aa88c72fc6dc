//! The engine handle and its entry points: reading a position, playing
//! moves on it, and searching it for a move.
//!
//! Text that does not describe a position or a move comes back as an
//! [`EngineError`]; nothing here ends the process.

use crate::board::{
    black_to_move, board_of_setup, board_state, board_text, build_board, color_on, count_below,
    fen_setup, fen_text, has_king, legal_moves, legal_moves_of, make_move, move_of_text,
    move_text, parse_move, parse_setup, piece_on, playable, roomy, setup_black_to_move,
    setup_from, setup_of, setup_of_state, setup_piece, state_after, text_of_move, BoardState,
    Move, Setup, KIND_KING, SIDE_LIMIT,
};
use crate::constants::CHECKMATE;
use crate::search::negamax::{negamax, search};
use crate::search::transposition::{valid_cache, TableEntry, TT};
use crate::uci::{best_move, texts, Memory, Status};
use std::collections::HashMap;
use vstd::prelude::*;
use vstd::utf8::is_ascii_chars;

verus! {

/// The engine. Its one field is the cooperative cancellation flag that a
/// search polls at the entry of every node.
pub struct Weakfish {
    pub is_interruption: bool,
}

/// Why a request could not be served.
#[derive(Clone, Copy, Debug, PartialEq, Eq, Structural)]
pub enum EngineError {
    /// The text does not describe a position.
    InvalidPosition,
    /// The text does not describe a move.
    InvalidMove,
    /// The move is not legal in the position it was to be played in.
    IllegalMove,
    /// The search returned no move: it was stopped, or the position was
    /// settled without looking at its moves.
    NoMove,
}

/// What the caller of [`Weakfish::handle`] has to do next.
pub enum Reply {
    Nothing,
    /// Print this line.
    Line(String),
    /// The request failed.
    Failed(EngineError),
    /// Leave the command loop.
    Stop,
}

/// The depth of the search that a `go` command starts.
pub const SEARCH_DEPTH: u8 = 7;

/// The position that a setup makes: the side to move has a king, the board
/// passes the `chess` crate's sanity check, and neither side has more
/// pieces than the move generator has room for.
pub open spec fn position_of_setup(setup: Setup) -> Option<BoardState> {
    if !has_king(setup, setup.black_to_move) {
        None
    } else {
        match board_of_setup(setup) {
            None => None,
            Some(s) => if roomy(s) {
                Some(s)
            } else {
                None
            },
        }
    }
}

/// The position that a text describes: the text is ASCII and in
/// Forsyth-Edwards notation, and what it sets up makes a position.
pub open spec fn position_of(text: Seq<char>) -> Option<BoardState> {
    if !is_ascii_chars(text) {
        None
    } else {
        match fen_setup(text) {
            None => None,
            Some(setup) => position_of_setup(setup),
        }
    }
}

/// The move that a text describes: the text is ASCII and in coordinate
/// notation.
pub open spec fn move_of(text: Seq<char>) -> Option<Move> {
    if is_ascii_chars(text) {
        move_of_text(text)
    } else {
        None
    }
}

/// The position after the first `n` of the given moves, or the first error
/// on the way: a text that is no move, or a move that is not legal where it
/// is played.
pub open spec fn played(s: BoardState, moves: Seq<Seq<char>>, n: int) -> Result<
    BoardState,
    EngineError,
>
    decreases n,
{
    if n <= 0 {
        Ok(s)
    } else {
        match played(s, moves, n - 1) {
            Err(e) => Err(e),
            Ok(before) => match move_of(moves[n - 1]) {
                None => Err(EngineError::InvalidMove),
                Some(m) => if legal_moves_of(before).contains(m) {
                    Ok(state_after(before, m))
                } else {
                    Err(EngineError::IllegalMove)
                },
            },
        }
    }
}

/// The text of the position reached from `fen` by `moves`, or the first
/// error on the way.
pub open spec fn play_spec(fen: Seq<char>, moves: Seq<Seq<char>>) -> Result<
    Seq<char>,
    EngineError,
> {
    match position_of(fen) {
        None => Err(EngineError::InvalidPosition),
        Some(s) => match played(s, moves, moves.len() as int) {
            Err(e) => Err(e),
            Ok(end) => Ok(fen_text(end)),
        },
    }
}

/// Whether `result` and `after` are what a search of `pos` to `depth` may
/// return and leave in the cache.
///
/// A text that is no position is refused and leaves the cache alone.
/// Otherwise the search runs from the root with the full window, and its
/// move is returned in coordinate notation. Where the search selected no
/// move of its own but examined the position's moves, the move returned is
/// one of the legal moves; which one is left to chance. Where it returned
/// no move at all, the result is [`EngineError::NoMove`].
pub open spec fn go_spec(
    stop: bool,
    pos: Seq<char>,
    depth: u8,
    keys: TT,
    before: Map<u64, TableEntry>,
    after: Map<u64, TableEntry>,
    result: Result<String, EngineError>,
) -> bool {
    match position_of(pos) {
        None => result == Err::<String, EngineError>(EngineError::InvalidPosition) && after
            == before,
        Some(s) => {
            let out = search(stop, keys, s, depth as nat, -CHECKMATE as int, CHECKMATE as int, 0, before);
            &&& after == out.cache
            &&& match out.best {
                Some(m) => result matches Ok(text) && text@ == text_of_move(m),
                None => if out.fallback {
                    result matches Ok(text) && exists|m: Move|
                        legal_moves_of(s).contains(m) && text@ == #[trigger] text_of_move(m)
                } else {
                    result == Err::<String, EngineError>(EngineError::NoMove)
                },
            }
        },
    }
}

/// Whether the side to move has a king in a setup.
fn mover_has_king(setup: &chess::BoardBuilder) -> (found: bool)
    ensures
        found == has_king(setup_of(*setup), setup_of(*setup).black_to_move),
{
    let color: u8 = if setup_black_to_move(setup) {
        1
    } else {
        0
    };
    let mut sq: u8 = 0;
    while sq < 64
        invariant
            sq <= 64,
            color == (if setup_of(*setup).black_to_move {
                1u8
            } else {
                0u8
            }),
            forall|t: int|
                0 <= t < sq ==> !(#[trigger] setup_of(*setup).pieces[t] == Some(KIND_KING)
                    && setup_of(*setup).colors[t] == Some(color)),
        decreases 64 - sq,
    {
        match setup_piece(setup, sq) {
            Some((kind, owner)) => {
                if kind == KIND_KING && owner == color {
                    return true;
                }
            },
            None => {},
        }
        sq = sq + 1;
    }
    false
}

/// Counts the pieces of one side on a board.
fn count_pieces(board: &chess::Board, black: bool) -> (count: u8)
    ensures
        count == count_below(board_state(*board), black, 64),
{
    let color: u8 = if black {
        1
    } else {
        0
    };
    let mut count: u8 = 0;
    let mut sq: u8 = 0;
    while sq < 64
        invariant
            sq <= 64,
            color == (if black {
                1u8
            } else {
                0u8
            }),
            count == count_below(board_state(*board), black, sq as int),
            count <= sq,
        decreases 64 - sq,
    {
        let piece = piece_on(board, sq);
        let owner = color_on(board, sq);
        let mine = match (piece, owner) {
            (Some(_), Some(c)) => c == color,
            _ => false,
        };
        if mine {
            count = count + 1;
        }
        sq = sq + 1;
    }
    count
}

/// Whether neither side has more pieces than the move generator has room
/// for.
pub fn within_limits(board: &chess::Board) -> (fits: bool)
    ensures
        fits == roomy(board_state(*board)),
{
    count_pieces(board, false) <= SIDE_LIMIT && count_pieces(board, true) <= SIDE_LIMIT
}

/// Builds the position that a setup makes, if it makes one.
fn build_position(setup: &chess::BoardBuilder) -> (result: Result<chess::Board, EngineError>)
    ensures
        match result {
            Ok(board) => position_of_setup(setup_of(*setup)) == Some(board_state(board))
                && playable(board),
            Err(e) => e == EngineError::InvalidPosition && position_of_setup(setup_of(*setup))
                is None,
        },
{
    if !mover_has_king(setup) {
        return Err(EngineError::InvalidPosition);
    }
    match build_board(setup) {
        Ok(board) => if within_limits(&board) {
            Ok(board)
        } else {
            Err(EngineError::InvalidPosition)
        },
        Err(_) => Err(EngineError::InvalidPosition),
    }
}

/// Reads a position in Forsyth-Edwards notation. A board that comes back is
/// playable.
pub fn read_position(text: &str) -> (result: Result<chess::Board, EngineError>)
    ensures
        match result {
            Ok(board) => position_of(text@) == Some(board_state(board)) && playable(board),
            Err(e) => e == EngineError::InvalidPosition && position_of(text@) is None,
        },
{
    if !text.is_ascii() {
        return Err(EngineError::InvalidPosition);
    }
    match parse_setup(text) {
        Ok(setup) => build_position(&setup),
        Err(_) => Err(EngineError::InvalidPosition),
    }
}

/// Makes a board playable: reads its setup off it and builds the position
/// anew, so that nothing is taken over from the board but what stands on
/// it, who is to move, and the castling and en-passant rights. A board that
/// comes back is playable; it is the caller's board only where that was.
pub fn accept_board(board: chess::Board) -> (result: Result<chess::Board, EngineError>)
    ensures
        match result {
            Ok(accepted) => position_of_setup(setup_of_state(board_state(board))) == Some(
                board_state(accepted),
            ) && playable(accepted),
            Err(e) => e == EngineError::InvalidPosition && position_of_setup(
                setup_of_state(board_state(board)),
            ) is None,
        },
{
    let setup = setup_from(&board);
    build_position(&setup)
}

/// Reads a move in coordinate notation.
pub fn read_move(text: &str) -> (result: Result<Move, EngineError>)
    ensures
        match result {
            Ok(m) => move_of(text@) == Some(m),
            Err(e) => e == EngineError::InvalidMove && move_of(text@) is None,
        },
{
    if !text.is_ascii() {
        return Err(EngineError::InvalidMove);
    }
    match parse_move(text) {
        Ok(m) => Ok(m),
        Err(_) => Err(EngineError::InvalidMove),
    }
}

/// Whether two moves are the same.
pub fn same_move(a: &Move, b: &Move) -> (same: bool)
    ensures
        same == (*a == *b),
{
    a.source == b.source && a.dest == b.dest && match (a.promotion, b.promotion) {
        (Some(p), Some(q)) => p == q,
        (None, None) => true,
        _ => false,
    }
}

/// Whether a move is legal on a board.
pub fn is_legal(board: &chess::Board, m: &Move) -> (legal: bool)
    requires
        playable(*board),
    ensures
        legal == legal_moves_of(board_state(*board)).contains(*m),
{
    let moves = legal_moves(board);
    let mut i: usize = 0;
    while i < moves.len()
        invariant
            i <= moves.len(),
            moves@ == legal_moves_of(board_state(*board)),
            forall|j: int| 0 <= j < i ==> moves[j] != *m,
        decreases moves.len() - i,
    {
        if same_move(&moves[i], m) {
            assert(moves@[i as int] == *m);
            return true;
        }
        i = i + 1;
    }
    false
}

/// Sets up the position `fen`, plays `moves` on it, and returns the text of
/// the position reached (see [`play_spec`]).
pub fn play_moves(fen: &str, moves: &Vec<String>) -> (result: Result<String, EngineError>)
    ensures
        match (result, play_spec(fen@, texts(moves@))) {
            (Ok(text), Ok(expected)) => text@ == expected,
            (Err(e), Err(expected)) => e == expected,
            _ => false,
        },
{
    let mut board = match read_position(fen) {
        Ok(board) => board,
        Err(e) => {
            return Err(e);
        },
    };
    let ghost start = board_state(board);
    let mut i: usize = 0;
    while i < moves.len()
        invariant
            i <= moves.len(),
            position_of(fen@) == Some(start),
            playable(board),
            played(start, texts(moves@), i as int) == Ok::<BoardState, EngineError>(
                board_state(board),
            ),
        decreases moves.len() - i,
    {
        assert(texts(moves@)[i as int] == moves@[i as int]@);
        let m = match read_move(moves[i].as_str()) {
            Ok(m) => m,
            Err(e) => {
                proof {
                    assert(played(start, texts(moves@), i + 1) == Err::<BoardState, EngineError>(
                        EngineError::InvalidMove,
                    ));
                    lemma_played_error(start, texts(moves@), i + 1, moves.len() as int);
                }
                return Err(e);
            },
        };
        if !is_legal(&board, &m) {
            proof {
                assert(played(start, texts(moves@), i + 1) == Err::<BoardState, EngineError>(
                    EngineError::IllegalMove,
                ));
                lemma_played_error(start, texts(moves@), i + 1, moves.len() as int);
            }
            return Err(EngineError::IllegalMove);
        }
        board = make_move(&board, m);
        i = i + 1;
    }
    Ok(board_text(&board))
}

/// Once playing the moves has failed, it stays failed with the same error.
proof fn lemma_played_error(s: BoardState, moves: Seq<Seq<char>>, failed: int, n: int)
    requires
        0 < failed <= n,
        played(s, moves, failed) is Err,
    ensures
        played(s, moves, n) == played(s, moves, failed),
    decreases n - failed,
{
    if failed < n {
        lemma_played_error(s, moves, failed, n - 1);
    }
}

impl Weakfish {
    pub fn new() -> (engine: Weakfish)
        ensures
            !engine.is_interruption,
    {
        Weakfish { is_interruption: false }
    }

    /// Searches the position `pos` to `depth` and returns the move found,
    /// in coordinate notation (see [`go_spec`]).
    pub fn go(
        &self,
        pos: String,
        depth: u8,
        table: &TT,
        hashmap: &mut HashMap<u64, TableEntry>,
    ) -> (result: Result<String, EngineError>)
        requires
            valid_cache(old(hashmap)@),
        ensures
            go_spec(
                self.is_interruption,
                pos@,
                depth,
                *table,
                old(hashmap)@,
                final(hashmap)@,
                result,
            ),
            valid_cache(final(hashmap)@),
    {
        let board = match read_position(pos.as_str()) {
            Ok(board) => board,
            Err(e) => {
                return Err(e);
            },
        };
        let turn: i8 = if black_to_move(&board) {
            -1
        } else {
            1
        };
        let found = negamax(self, &board, depth, -CHECKMATE, CHECKMATE, turn, 0, table, hashmap);
        match found.0 {
            Some(m) => Ok(move_text(m)),
            None => Err(EngineError::NoMove),
        }
    }

    /// Asks a running search to stop.
    pub fn quit(&mut self)
        ensures
            final(self).is_interruption,
    {
        self.is_interruption = true;
    }

    /// Acts on what a line of input asked for.
    ///
    /// `Continue` does nothing. `Position` plays the moves on the position
    /// and records the text of the position reached in `mem`; on an error it
    /// records nothing. `Go` searches the recorded position to
    /// [`SEARCH_DEPTH`], whatever depth was asked for, and answers with the
    /// `bestmove` line. `Quit` raises the cancellation flag.
    pub fn handle(
        &mut self,
        status: Status,
        mem: &mut Memory,
        table: &TT,
        hashmap: &mut HashMap<u64, TableEntry>,
    ) -> (reply: Reply)
        requires
            valid_cache(old(hashmap)@),
        ensures
            valid_cache(final(hashmap)@),
            final(mem).moves == old(mem).moves,
            match status {
                Status::Continue => reply is Nothing && *final(self) == *old(self) && final(mem).pos
                    == old(mem).pos && final(hashmap)@ == old(hashmap)@,
                Status::Quit => reply is Stop && final(self).is_interruption && final(mem).pos
                    == old(mem).pos && final(hashmap)@ == old(hashmap)@,
                Status::Position(fen, moves) => *final(self) == *old(self) && final(hashmap)@
                    == old(hashmap)@ && match play_spec(fen@, texts(moves@)) {
                    Ok(text) => reply is Nothing && final(mem).pos@ == text,
                    Err(e) => reply == Reply::Failed(e) && final(mem).pos == old(mem).pos,
                },
                Status::Go(_) => *final(self) == *old(self) && final(mem).pos == old(mem).pos
                    && exists|found: Result<String, EngineError>|
                    #[trigger] go_spec(
                        old(self).is_interruption,
                        old(mem).pos@,
                        SEARCH_DEPTH,
                        *table,
                        old(hashmap)@,
                        final(hashmap)@,
                        found,
                    ) && match found {
                        Ok(text) => reply matches Reply::Line(line) && line@ == "bestmove "@
                            + text@,
                        Err(e) => reply == Reply::Failed(e),
                    },
            },
    {
        match status {
            Status::Continue => Reply::Nothing,
            Status::Quit => {
                self.quit();
                Reply::Stop
            },
            Status::Position(fen, moves) => match play_moves(fen.as_str(), &moves) {
                Ok(text) => {
                    mem.pos = text;
                    Reply::Nothing
                },
                Err(e) => Reply::Failed(e),
            },
            Status::Go(_) => {
                let found = self.go(mem.pos.clone(), SEARCH_DEPTH, table, hashmap);
                match found {
                    Ok(text) => Reply::Line(best_move(text)),
                    Err(e) => Reply::Failed(e),
                }
            },
        }
    }
}

} // verus!
