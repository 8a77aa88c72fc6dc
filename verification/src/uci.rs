//! The command language: what a line of input asks for, and the lines to
//! answer with.
//!
//! Nothing here reads or prints. [`parse`] turns one line into a [`Status`]
//! and the reply lines; the caller prints the replies and acts on the
//! status.

use vstd::prelude::*;
use vstd::string::StringExecFns;

verus! {

/// What a line of input asks the engine to do.
pub enum Status {
    /// Search to the given depth.
    Go(u8),
    /// Set up a position and play the given moves on it.
    Position(String, Vec<String>),
    /// Nothing to do.
    Continue,
    /// Stop.
    Quit,
}

/// The position that the last `position` command gave.
pub struct Memory {
    pub pos: String,
    pub moves: Vec<String>,
}

/// A [`Status`] as plain values.
pub enum StatusView {
    Go(u8),
    Position(Seq<char>, Seq<Seq<char>>),
    Continue,
    Quit,
}

/// The depth that a `go` command asks for.
pub const GO_DEPTH: u8 = 6;

/// The characters of each string.
pub open spec fn texts(v: Seq<String>) -> Seq<Seq<char>> {
    Seq::new(v.len(), |i: int| v[i]@)
}

pub open spec fn status_view(status: Status) -> StatusView {
    match status {
        Status::Go(depth) => StatusView::Go(depth),
        Status::Position(fen, moves) => StatusView::Position(fen@, texts(moves@)),
        Status::Continue => StatusView::Continue,
        Status::Quit => StatusView::Quit,
    }
}

/// The text of the standard starting position.
pub open spec fn start_text() -> Seq<char> {
    "rnbqkbnr/pppppppp/8/8/8/8/PPPPPPPP/RNBQKBNR w KQkq - 0 1"@
}

/// Whether a character is white space: the characters with the Unicode
/// property `White_Space`.
pub open spec fn is_space_char(c: char) -> bool {
    let u = c as u32;
    (9 <= u <= 13) || u == 32 || u == 0x85 || u == 0xA0 || u == 0x1680 || (0x2000 <= u <= 0x200A)
        || u == 0x2028 || u == 0x2029 || u == 0x202F || u == 0x205F || u == 0x3000
}

/// `current` as a word, unless it is empty.
pub open spec fn finished(current: Seq<char>) -> Seq<Seq<char>> {
    if current.len() > 0 {
        seq![current]
    } else {
        Seq::empty()
    }
}

/// The words of `s` from character `i` on, where `current` holds the
/// characters of the word that character `i` continues.
pub open spec fn words_from(s: Seq<char>, i: int, current: Seq<char>) -> Seq<Seq<char>>
    decreases s.len() - i,
{
    if i < 0 || i >= s.len() {
        finished(current)
    } else if is_space_char(s[i]) {
        finished(current) + words_from(s, i + 1, Seq::empty())
    } else {
        words_from(s, i + 1, current.push(s[i]))
    }
}

/// The words of a line: its maximal runs of characters that are not white
/// space.
pub open spec fn words(s: Seq<char>) -> Seq<Seq<char>> {
    words_from(s, 0, Seq::empty())
}

/// The first `n` words joined by single spaces.
pub open spec fn joined(ws: Seq<Seq<char>>, n: int) -> Seq<char>
    decreases n,
{
    if n <= 0 {
        Seq::empty()
    } else {
        let before = joined(ws, n - 1);
        if before.len() == 0 {
            ws[n - 1]
        } else {
            before + " "@ + ws[n - 1]
        }
    }
}

pub open spec fn lesser_len(a: int, b: int) -> int {
    if a < b {
        a
    } else {
        b
    }
}

/// The lines that answer `uci`.
pub open spec fn uci_replies() -> Seq<Seq<char>> {
    seq![
        "id name Weakfish"@,
        "id author juliohq"@,
        "option name Level type spin default 1 min 1 max 20"@,
        "uciok"@,
    ]
}

/// What a line of input means: the status and the reply lines.
///
/// The lines `uci`, `isready` and `ucinewgame` are recognised only as a
/// whole, ending in a line feed. Any other line is read word by word: `go`
/// asks for a search; `position fen` takes words three to eight as the
/// position and the words from the tenth on as moves; `position startpos`
/// takes the starting position and the words from the fourth on as moves.
/// In both forms the word before the moves, which announces them, is passed
/// over unread. A line of one word other than `go` is passed over in
/// silence.
pub open spec fn parse_spec(input: Seq<char>) -> (StatusView, Seq<Seq<char>>) {
    let w = words(input);
    let n = w.len() as int;
    if input == "uci\n"@ {
        (StatusView::Continue, uci_replies())
    } else if input == "isready\n"@ {
        (StatusView::Continue, seq!["readyok"@])
    } else if input == "ucinewgame\n"@ {
        (StatusView::Continue, Seq::empty())
    } else if n == 0 {
        (StatusView::Continue, Seq::empty())
    } else if w[0] == "go"@ {
        (StatusView::Go(GO_DEPTH), Seq::empty())
    } else if n == 1 {
        (StatusView::Continue, Seq::empty())
    } else if w[0] == "position"@ {
        if w[1] == "fen"@ {
            (
                StatusView::Position(joined(w.subrange(2, lesser_len(8, n)), lesser_len(8, n) - 2),
                    w.subrange(lesser_len(9, n), n)),
                Seq::empty(),
            )
        } else if w[1] == "startpos"@ {
            (StatusView::Position(start_text(), w.subrange(lesser_len(3, n), n)), Seq::empty())
        } else {
            (StatusView::Continue, seq!["Unknown parameter: "@ + w[1]])
        }
    } else {
        (StatusView::Continue, seq!["Unknown command: "@ + w[0]])
    }
}

impl Memory {
    pub fn new() -> (mem: Memory)
        ensures
            mem.pos@ == Seq::<char>::empty(),
            mem.moves@ == Seq::<String>::empty(),
    {
        Memory { pos: String::new(), moves: Vec::new() }
    }
}

/// Whether a character is white space.
pub fn is_space(c: char) -> (r: bool)
    ensures
        r == is_space_char(c),
{
    let u = c as u32;
    (9 <= u && u <= 13) || u == 32 || u == 0x85 || u == 0xA0 || u == 0x1680 || (0x2000 <= u && u
        <= 0x200A) || u == 0x2028 || u == 0x2029 || u == 0x202F || u == 0x205F || u == 0x3000
}

/// Splits a line into its words.
pub fn split_whitespace(input: &str) -> (out: Vec<String>)
    ensures
        texts(out@) == words(input@),
{
    let mut out: Vec<String> = Vec::new();
    let n = input.unicode_len();
    let mut start: usize = 0;
    let mut i: usize = 0;
    assert(input@.subrange(0, 0) =~= Seq::<char>::empty());
    assert(texts(out@) + words(input@) =~= words(input@));
    while i < n
        invariant
            n == input@.len(),
            start <= i <= n,
            words(input@) == texts(out@) + words_from(
                input@,
                i as int,
                input@.subrange(start as int, i as int),
            ),
        decreases n - i,
    {
        let c = input.get_char(i);
        let ghost current = input@.subrange(start as int, i as int);
        if is_space(c) {
            if start < i {
                let ghost before = texts(out@);
                out.push(input.substring_char(start, i).to_owned());
                assert(texts(out@) =~= before + seq![current]);
            }
            assert(texts(out@) + words_from(input@, i + 1, Seq::empty()) =~= (texts(out@)
                + Seq::<Seq<char>>::empty()) + words_from(input@, i + 1, Seq::empty()));
            start = i + 1;
            assert(input@.subrange(start as int, i + 1) =~= Seq::<char>::empty());
        } else {
            assert(input@.subrange(start as int, i + 1) =~= current.push(input@[i as int]));
        }
        i = i + 1;
    }
    if start < i {
        let ghost before = texts(out@);
        out.push(input.substring_char(start, i).to_owned());
        assert(texts(out@) =~= before + seq![input@.subrange(start as int, i as int)]);
    } else {
        assert(texts(out@) + Seq::<Seq<char>>::empty() =~= texts(out@));
    }
    out
}

/// Whether a string reads as the given text.
pub fn text_is(s: &str, text: &str) -> (r: bool)
    ensures
        r == (s@ == text@),
{
    let a = s.to_owned();
    let b = text.to_owned();
    a == b
}

/// The lines that name the engine and its author.
pub fn identify() -> (lines: Vec<String>)
    ensures
        texts(lines@) == seq!["id name Weakfish"@, "id author juliohq"@],
{
    let mut lines: Vec<String> = Vec::new();
    lines.push("id name Weakfish".to_owned());
    lines.push("id author juliohq".to_owned());
    assert(texts(lines@) =~= seq!["id name Weakfish"@, "id author juliohq"@]);
    lines
}

/// The line that lists the engine's options.
pub fn options() -> (line: String)
    ensures
        line@ == "option name Level type spin default 1 min 1 max 20"@,
{
    "option name Level type spin default 1 min 1 max 20".to_owned()
}

/// Records a position and its moves.
pub fn position(fen: String, moves: Vec<String>, mem: &mut Memory)
    ensures
        final(mem).pos == fen,
        final(mem).moves == moves,
{
    mem.pos = fen;
    mem.moves = moves;
}

/// The line that announces the move chosen.
pub fn best_move(move_str: String) -> (line: String)
    ensures
        line@ == "bestmove "@ + move_str@,
{
    "bestmove ".to_owned().concat(move_str.as_str())
}

/// The line that answers a command that is not known.
pub fn unknown_command(command: &str) -> (line: String)
    ensures
        line@ == "Unknown command: "@ + command@,
{
    "Unknown command: ".to_owned().concat(command)
}

/// The line that answers a parameter that is not known.
pub fn unknown_parameter(p: &str) -> (line: String)
    ensures
        line@ == "Unknown parameter: "@ + p@,
{
    "Unknown parameter: ".to_owned().concat(p)
}

/// Joins words `from` to `to` of a line by single spaces.
fn join_words(words: &Vec<String>, from: usize, to: usize) -> (text: String)
    requires
        from <= to <= words.len(),
    ensures
        text@ == joined(texts(words@).subrange(from as int, to as int), to - from),
{
    let ghost part = texts(words@).subrange(from as int, to as int);
    let mut text = String::new();
    let mut i: usize = from;
    while i < to
        invariant
            from <= i <= to <= words.len(),
            part == texts(words@).subrange(from as int, to as int),
            text@ == joined(part, i - from),
        decreases to - i,
    {
        assert(part[i - from] == words@[i as int]@);
        if text.as_str().unicode_len() == 0 {
            text = words[i].clone();
        } else {
            text.append(" ");
            text.append(words[i].as_str());
        }
        i = i + 1;
    }
    text
}

/// Copies words `from` onwards of a line.
fn copy_words(words: &Vec<String>, from: usize) -> (out: Vec<String>)
    requires
        from <= words.len(),
    ensures
        texts(out@) == texts(words@).subrange(from as int, words.len() as int),
{
    let mut out: Vec<String> = Vec::new();
    let mut i: usize = from;
    while i < words.len()
        invariant
            from <= i <= words.len(),
            texts(out@) == texts(words@).subrange(from as int, i as int),
        decreases words.len() - i,
    {
        let ghost before = texts(out@);
        out.push(words[i].clone());
        assert(texts(out@) =~= before.push(words@[i as int]@));
        assert(texts(words@).subrange(from as int, i + 1) =~= texts(words@).subrange(
            from as int,
            i as int,
        ).push(words@[i as int]@));
        i = i + 1;
    }
    out
}

/// Reads one line of input (see [`parse_spec`]). A `position` command is
/// recorded in `mem`; no other line changes it.
pub fn parse(input: String, mem: &mut Memory) -> (result: (Status, Vec<String>))
    ensures
        status_view(result.0) == parse_spec(input@).0,
        texts(result.1@) == parse_spec(input@).1,
        match parse_spec(input@).0 {
            StatusView::Position(fen, moves) => final(mem).pos@ == fen && texts(final(mem).moves@)
                == moves,
            _ => *final(mem) == *old(mem),
        },
{
    let mut replies: Vec<String> = Vec::new();
    assert(texts(replies@) =~= Seq::<Seq<char>>::empty());
    if text_is(input.as_str(), "uci\n") {
        replies = identify();
        let ghost names = texts(replies@);
        replies.push(options());
        let ghost listed = texts(replies@);
        assert(listed =~= names.push("option name Level type spin default 1 min 1 max 20"@));
        replies.push("uciok".to_owned());
        assert(texts(replies@) =~= listed.push("uciok"@));
        assert(texts(replies@) =~= uci_replies());
        return (Status::Continue, replies);
    }
    if text_is(input.as_str(), "isready\n") {
        replies.push("readyok".to_owned());
        assert(texts(replies@) =~= seq!["readyok"@]);
        return (Status::Continue, replies);
    }
    if text_is(input.as_str(), "ucinewgame\n") {
        return (Status::Continue, replies);
    }
    let split = split_whitespace(input.as_str());
    let ghost w = words(input@);
    assert(split@.len() == w.len());
    if split.len() == 0 {
        return (Status::Continue, replies);
    }
    assert(w[0] == split@[0]@);
    if text_is(split[0].as_str(), "go") {
        return (Status::Go(GO_DEPTH), replies);
    }
    if split.len() == 1 {
        return (Status::Continue, replies);
    }
    assert(w[1] == split@[1]@);
    if text_is(split[0].as_str(), "position") {
        if text_is(split[1].as_str(), "fen") {
            let end = if split.len() < 8 {
                split.len()
            } else {
                8
            };
            let rest = if split.len() < 9 {
                split.len()
            } else {
                9
            };
            let fen = join_words(&split, 2, end);
            let moves = copy_words(&split, rest);
            let kept = copy_words(&split, rest);
            position(fen.clone(), kept, mem);
            return (Status::Position(fen, moves), replies);
        } else if text_is(split[1].as_str(), "startpos") {
            let fen = "rnbqkbnr/pppppppp/8/8/8/8/PPPPPPPP/RNBQKBNR w KQkq - 0 1".to_owned();
            let rest = if split.len() < 3 {
                split.len()
            } else {
                3
            };
            let moves = copy_words(&split, rest);
            let kept = copy_words(&split, rest);
            position(fen.clone(), kept, mem);
            return (Status::Position(fen, moves), replies);
        } else {
            replies.push(unknown_parameter(split[1].as_str()));
            assert(texts(replies@) =~= seq!["Unknown parameter: "@ + w[1]]);
        }
    } else {
        replies.push(unknown_command(split[0].as_str()));
        assert(texts(replies@) =~= seq!["Unknown command: "@ + w[0]]);
    }
    (Status::Continue, replies)
}

} // verus!
