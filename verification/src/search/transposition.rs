//! Zobrist hashing of positions and the transposition cache.
//!
//! A [`TT`] holds one key per square and piece code and one key for "black to
//! move"; the hash of a position is the exclusive or of the keys of what is
//! present. The cache itself is a `HashMap` from hash to [`TableEntry`], owned
//! by the caller across searches; what a lookup answers from stands behind
//! the flag [`ANSWER_ANY_DEPTH`]. A cache is only meaningful together with
//! the key table that produced its hashes: refilling the table while keeping
//! the cache makes lookups answer for unrelated positions, and nothing here
//! detects that.

use crate::board::{black_to_move, board_state, color_on, piece_on, BoardState};
use crate::chance::random_key;
use crate::constants::SCORE_LIMIT;
use std::collections::HashMap;
use vstd::prelude::*;

verus! {

broadcast use vstd::std_specs::hash::group_hash_axioms;

pub const WHITE_PAWN: usize = 1;

pub const WHITE_KNIGHT: usize = 2;

pub const WHITE_BISHOP: usize = 3;

pub const WHITE_ROOK: usize = 4;

pub const WHITE_QUEEN: usize = 5;

pub const WHITE_KING: usize = 6;

pub const BLACK_PAWN: usize = 7;

pub const BLACK_KNIGHT: usize = 8;

pub const BLACK_BISHOP: usize = 9;

pub const BLACK_ROOK: usize = 10;

pub const BLACK_QUEEN: usize = 11;

pub const BLACK_KING: usize = 12;

/// The Zobrist key table.
#[derive(Copy, Clone)]
pub struct TT {
    /// One key per square and piece code; column 0 belongs to no piece.
    pub table: [[u64; 13]; 64],
    pub black_to_move: u64,
}

/// How a stored score relates to the true value of its position.
#[derive(Clone, Copy, Debug, PartialEq, Eq, Structural)]
pub enum Bound {
    Lower,
    Exact,
    Upper,
}

/// What the search remembers of a position.
#[derive(Clone, Copy, Debug)]
pub struct TableEntry {
    pub depth: u8,
    pub score: i64,
    pub age: u8,
    pub bound: Bound,
}

/// The code of what stands on a square: 0 for nothing, 1 to 6 for a white
/// pawn, knight, bishop, rook, queen, king, and 7 to 12 for the black ones.
pub open spec fn square_code(piece: Option<u8>, color: Option<u8>) -> int {
    match (piece, color) {
        (Some(p), Some(c)) => p + 1 + if c == 0 {
            0int
        } else {
            6int
        },
        _ => 0,
    }
}

/// The codes of all 64 squares of a position.
pub open spec fn placement_of(s: BoardState) -> Seq<u8> {
    Seq::new(64, |i: int| square_code(s.pieces[i], s.colors[i]) as u8)
}

/// The hash of the first `n` squares: the key for black to move, if black is
/// to move, combined with the key of every piece on those squares.
pub open spec fn hash_below(keys: TT, s: BoardState, n: int) -> u64
    decreases n,
{
    if n <= 0 {
        if s.black_to_move {
            keys.black_to_move
        } else {
            0
        }
    } else if s.pieces[n - 1] is Some {
        hash_below(keys, s, n - 1) ^ keys.table[n - 1][square_code(s.pieces[n - 1], s.colors[n - 1])]
    } else {
        hash_below(keys, s, n - 1)
    }
}

/// The Zobrist hash of a position.
pub open spec fn zobrist(keys: TT, s: BoardState) -> u64 {
    hash_below(keys, s, 64)
}

/// Whether `keys` is the table made of the 769 keys `draws`: key
/// `12 * sq + code - 1` for the piece with code `code` on square `sq`, the
/// last key for black to move, and zero in column 0, which belongs to no
/// piece.
pub open spec fn made_of(keys: TT, draws: Seq<u64>) -> bool {
    &&& draws.len() == 769
    &&& keys.black_to_move == draws[768]
    &&& forall|sq: int, code: int|
        0 <= sq < 64 && 0 <= code < 13 ==> #[trigger] keys.table[sq][code] == (if code == 0 {
            0u64
        } else {
            draws[sq * 12 + code - 1]
        })
}

/// Draws the 769 keys of a table, one after the other.
fn draw_keys() -> (draws: [u64; 769]) {
    let mut draws: [u64; 769] = [0u64; 769];
    let mut i: usize = 0;
    while i < 769
        invariant
            i <= 769,
        decreases 769 - i,
    {
        draws[i] = random_key();
        i = i + 1;
    }
    draws
}

impl TableEntry {
    /// An entry is valid when its score lies within the limit that the
    /// search keeps.
    pub open spec fn valid(&self) -> bool {
        -SCORE_LIMIT <= self.score <= SCORE_LIMIT
    }

    pub fn new(depth: u8, score: i64, age: u8, bound: Bound) -> (entry: TableEntry)
        ensures
            entry == (TableEntry { depth, score, age, bound }),
    {
        TableEntry { depth, score, age, bound }
    }
}

/// A cache is valid when every entry is.
pub open spec fn valid_cache(cache: Map<u64, TableEntry>) -> bool {
    forall|h: u64| #[trigger] cache.contains_key(h) ==> cache[h].valid()
}

/// Whether a lookup answers from any entry under the hash, whatever depth
/// it was searched to and whatever its bound. With the flag set, an entry
/// from a shallow search answers for a deep one, and a bound is returned as
/// if it were a value. With the flag cleared, an entry answers only for a
/// search no deeper than the one that stored it, and only with an exact
/// score.
pub const ANSWER_ANY_DEPTH: bool = true;

/// Whether an entry answers a lookup for a search to `depth` (see
/// [`ANSWER_ANY_DEPTH`]).
pub open spec fn answers(entry: TableEntry, depth: u8) -> bool {
    ANSWER_ANY_DEPTH || (entry.depth >= depth && entry.bound == Bound::Exact)
}

/// The score with which a cache answers a lookup of a hash for a search to
/// `depth`, if it answers.
pub open spec fn cached_score(cache: Map<u64, TableEntry>, hash: u64, depth: u8) -> Option<i64> {
    if cache.contains_key(hash) && answers(cache[hash], depth) {
        Some(cache[hash].score)
    } else {
        None
    }
}

/// Looks a hash up for a search to `depth`. While [`ANSWER_ANY_DEPTH`] is
/// set, a hit returns the stored score as it is: neither the depth searched
/// nor the bound kind is consulted.
pub fn get(hashmap: &HashMap<u64, TableEntry>, hash: u64, depth: u8) -> (score: Option<i64>)
    ensures
        score == cached_score(hashmap@, hash, depth),
{
    match hashmap.get(&hash) {
        Some(entry) => {
            let exact = match entry.bound {
                Bound::Exact => true,
                _ => false,
            };
            if ANSWER_ANY_DEPTH || (entry.depth >= depth && exact) {
                Some(entry.score)
            } else {
                None
            }
        },
        None => None,
    }
}

/// Stores an entry under a hash, replacing whatever was there.
pub fn put(
    hashmap: &mut HashMap<u64, TableEntry>,
    hash: u64,
    depth: u8,
    score: i64,
    age: u8,
    bound: Bound,
)
    ensures
        final(hashmap)@ == old(hashmap)@.insert(hash, TableEntry { depth, score, age, bound }),
{
    hashmap.insert(hash, TableEntry::new(depth, score, age, bound));
}

/// A score read back right after it was stored is the score that was
/// stored, for every lookup that the entry answers, and the entries under
/// all other hashes are untouched.
pub proof fn lemma_cache_round_trip(
    cache: Map<u64, TableEntry>,
    hash: u64,
    entry: TableEntry,
    other: u64,
    depth: u8,
)
    ensures
        answers(entry, depth) ==> cached_score(cache.insert(hash, entry), hash, depth) == Some(
            entry.score,
        ),
        other != hash ==> cached_score(cache.insert(hash, entry), other, depth) == cached_score(
            cache,
            other,
            depth,
        ),
{
}

impl TT {
    /// A table of zero keys.
    pub fn new() -> (keys: TT)
        ensures
            keys.black_to_move == 0,
            forall|sq: int, code: int|
                0 <= sq < 64 && 0 <= code < 13 ==> #[trigger] keys.table[sq][code] == 0,
    {
        TT { table: [[0u64; 13]; 64], black_to_move: 0u64 }
    }

    /// The table made of the given keys, taken in the order of drawing: for
    /// each square from a1 on its twelve piece keys, white pawn to black
    /// king, and last the key for black to move.
    pub fn from_keys(draws: &[u64; 769]) -> (keys: TT)
        ensures
            made_of(keys, draws@),
    {
        let mut table: [[u64; 13]; 64] = [[0u64; 13]; 64];
        let mut sq: usize = 0;
        while sq < 64
            invariant
                sq <= 64,
                forall|s: int, c: int|
                    0 <= s < 64 && 0 <= c < 13 ==> #[trigger] table[s][c] == (if c == 0 || s
                        >= sq {
                        0u64
                    } else {
                        draws[s * 12 + c - 1]
                    }),
            decreases 64 - sq,
        {
            let mut row: [u64; 13] = [0u64; 13];
            let mut piece: usize = WHITE_PAWN;
            while piece <= BLACK_KING
                invariant
                    1 <= piece <= 13,
                    sq < 64,
                    forall|c: int|
                        0 <= c < 13 ==> #[trigger] row[c] == (if c == 0 || c >= piece {
                            0u64
                        } else {
                            draws[sq * 12 + c - 1]
                        }),
                decreases 13 - piece,
            {
                row[piece] = draws[sq * 12 + piece - 1];
                piece = piece + 1;
            }
            table[sq] = row;
            sq = sq + 1;
        }
        TT { table, black_to_move: draws[768] }
    }

    /// A table of freshly drawn keys: 769 random keys, put in their places
    /// as [`TT::from_keys`] does. The board plays no part.
    pub fn from_board(board: &chess::Board) -> (keys: TT)
        ensures
            exists|draws: Seq<u64>| #[trigger] made_of(keys, draws),
            forall|sq: int| 0 <= sq < 64 ==> #[trigger] keys.table[sq][0] == 0,
    {
        let draws = draw_keys();
        TT::from_keys(&draws)
    }

    /// Replaces the table by one of freshly drawn keys, as
    /// [`TT::from_board`] makes it. The board plays no part.
    pub fn update(&mut self, board: &chess::Board)
        ensures
            exists|draws: Seq<u64>| #[trigger] made_of(*final(self), draws),
            forall|sq: int| 0 <= sq < 64 ==> #[trigger] final(self).table[sq][0] == 0,
    {
        let draws = draw_keys();
        *self = TT::from_keys(&draws);
    }

    /// The Zobrist hash of a board under this table.
    pub fn hash(self, board: &chess::Board) -> (hash: u64)
        ensures
            hash == zobrist(self, board_state(*board)),
    {
        let mut hash: u64 = if black_to_move(board) {
            self.black_to_move
        } else {
            0u64
        };
        let mut sq: u8 = 0;
        while sq < 64
            invariant
                sq <= 64,
                hash == hash_below(self, board_state(*board), sq as int),
            decreases 64 - sq,
        {
            let piece = piece_on(board, sq);
            match piece {
                Some(p) => {
                    let code = piece_index(p, sq, board);
                    hash = hash ^ self.table[sq as usize][code];
                },
                None => {},
            }
            sq = sq + 1;
        }
        hash
    }
}

/// The code of what stands on a square of a board (see [`square_code`]).
pub fn piece_index(piece: u8, square: u8, board: &chess::Board) -> (code: usize)
    requires
        square < 64,
    ensures
        code == square_code(
            board_state(*board).pieces[square as int],
            board_state(*board).colors[square as int],
        ),
        code <= 12,
{
    match piece_on(board, square) {
        Some(p) => match color_on(board, square) {
            Some(c) => (p as usize) + 1 + if c == 0 {
                0
            } else {
                6
            },
            None => 0,
        },
        None => 0,
    }
}

/// Reads the codes of all 64 squares off a board.
pub fn placement(board: &chess::Board) -> (squares: [u8; 64])
    ensures
        squares@ == placement_of(board_state(*board)),
        forall|i: int| 0 <= i < 64 ==> squares[i] <= 12,
{
    let mut squares: [u8; 64] = [0u8; 64];
    let mut sq: u8 = 0;
    while sq < 64
        invariant
            sq <= 64,
            forall|i: int| 0 <= i < sq ==> squares[i] == placement_of(board_state(*board))[i],
            forall|i: int| 0 <= i < 64 ==> squares[i] <= 12,
        decreases 64 - sq,
    {
        let code = piece_index(0, sq, board);
        squares[sq as usize] = code as u8;
        sq = sq + 1;
    }
    assert(squares@ =~= placement_of(board_state(*board)));
    squares
}

} // verus!
