//! Suites of opening positions for matches, each reached by a line of moves from
//! the starting position or given as a FEN.
use vstd::prelude::*;
use crate::board::rules;
use crate::board::Position;
use crate::book;
use crate::book::SplitMix64;
use crate::nnue::types::Color;
use crate::sums;
use crate::text;
use crate::types::RawMove;

verus! {

/// A name and the moves that lead to a position, as UCI writes them.
#[derive(Debug)]
pub struct SuiteEntry {
    pub name: String,
    pub plies: Vec<String>,
}

impl SuiteEntry {
    /// The moves.
    pub open spec fn line(&self) -> Seq<Seq<char>> {
        text::shown(self.plies@)
    }
}

/// Why a suite is refused.
#[derive(Debug)]
pub enum SuiteError {
    /// A move of an opening is illegal.
    IllegalMove { name: String, ply: String },
    /// An opening leads to the position of an earlier one.
    Duplicate(String),
    /// A FEN is the position of an earlier one.
    DuplicatePosition(String),
    /// A FEN cannot be read, or is no position.
    BadFen { name: String, fen: String },
    /// There is no suite with the name.
    UnknownSuite(String),
}

impl SuiteError {
    /// The reason in words.
    pub fn message(&self) -> (r: String)
        ensures
            r@ == (match self {
                SuiteError::IllegalMove { name, ply } => "opening "@ + name@ + ": move "@ + ply@
                    + " is illegal"@,
                SuiteError::Duplicate(name) => "opening "@ + name@
                    + " duplicates the position of an earlier entry"@,
                SuiteError::DuplicatePosition(name) => "opening "@ + name@
                    + " duplicates an earlier position"@,
                SuiteError::BadFen { name, fen } => "opening "@ + name@ + ": bad FEN "@ + fen@,
                SuiteError::UnknownSuite(name) => "unknown opening suite "@ + text::quoted_text(
                    name@,
                ) + " (available: classical-v1)"@,
            }),
            self matches SuiteError::UnknownSuite(name) ==> text::plainly_quoted(name@),
    {
        let mut out: String = String::new();
        match self {
            SuiteError::IllegalMove { name, ply } => {
                out.append("opening ");
                out.append(name.as_str());
                out.append(": move ");
                out.append(ply.as_str());
                out.append(" is illegal");
            },
            SuiteError::Duplicate(name) => {
                out.append("opening ");
                out.append(name.as_str());
                out.append(" duplicates the position of an earlier entry");
            },
            SuiteError::DuplicatePosition(name) => {
                out.append("opening ");
                out.append(name.as_str());
                out.append(" duplicates an earlier position");
            },
            SuiteError::BadFen { name, fen } => {
                out.append("opening ");
                out.append(name.as_str());
                out.append(": bad FEN ");
                out.append(fen.as_str());
            },
            SuiteError::UnknownSuite(name) => {
                out.append("unknown opening suite ");
                out.append(text::quoted(name.as_str()).as_str());
                out.append(" (available: classical-v1)");
            },
        }
        proof {
            assert(Seq::<char>::empty() + "opening "@ =~= "opening "@);
            assert(Seq::<char>::empty() + "unknown opening suite "@ =~= "unknown opening suite "@);
        }
        out
    }
}

// --- lines of moves -------------------------------------------------------------------------------

/// The FEN of the starting position.
pub open spec fn start_text() -> Seq<char> {
    "rnbqkbnr/pppppppp/8/8/8/8/PPPPPPPP/RNBQKBNR w KQkq - 0 1"@
}

/// The position after a move; nothing where the move is illegal.
pub open spec fn after(text: Seq<char>, uci: Seq<char>) -> Option<Seq<char>> {
    if rules::is_uci(uci) && rules::uci_step_of(text, uci) is Some {
        Some(rules::text_after(text, rules::uci_step_of(text, uci)->0))
    } else {
        None
    }
}

/// The position after a line of moves; nothing where a move is illegal.
pub open spec fn reached(text: Seq<char>, line: Seq<Seq<char>>) -> Option<Seq<char>>
    decreases line.len(),
{
    if line.len() == 0 {
        Some(text)
    } else {
        match reached(text, line.drop_last()) {
            Some(t) => after(t, line.last()),
            None => None,
        }
    }
}

/// The moves of a line.
pub open spec fn moves_of(text: Seq<char>, line: Seq<Seq<char>>) -> Seq<RawMove>
    decreases line.len(),
{
    if line.len() == 0 {
        Seq::empty()
    } else {
        let t = reached(text, line.drop_last());
        moves_of(text, line.drop_last()).push(
            (rules::uci_step_of(t->0, line.last())->0).raw_spec(),
        )
    }
}

/// The window of hashes after a move from the position with a hash to one with a halfmove
/// counter.
pub open spec fn noted(window: Seq<u64>, hash: u64, halfmoves: u32) -> Seq<u64> {
    if halfmoves == 0 {
        Seq::empty()
    } else {
        window.push(hash)
    }
}

/// The hashes of the positions of a line since the last move that cannot be taken
/// back, the last position left out.
pub open spec fn window_of(text: Seq<char>, line: Seq<Seq<char>>) -> Seq<u64>
    decreases line.len(),
{
    if line.len() == 0 {
        Seq::empty()
    } else {
        let t = reached(text, line.drop_last());
        let u = reached(text, line);
        noted(
            window_of(text, line.drop_last()),
            rules::hash_of(t->0),
            (rules::facts_of(u->0)->0).halfmoves,
        )
    }
}

/// A line is legal only if its beginnings are.
pub proof fn lemma_prefix(text: Seq<char>, line: Seq<Seq<char>>, n: int)
    requires
        0 <= n <= line.len(),
        reached(text, line) is Some,
    ensures
        reached(text, line.take(n)) is Some,
    decreases line.len(),
{
    if n < line.len() {
        assert(line.drop_last().take(n) =~= line.take(n));
        lemma_prefix(text, line.drop_last(), n);
    } else {
        assert(line.take(n) =~= line);
    }
}

/// Takes note of a position that a move leaves: a move that cannot be taken back
/// ends the window.
pub fn record(history: &mut Vec<u64>, pos: &Position, child: &Position)
    ensures
        final(history)@ == noted(
            old(history)@,
            rules::hash_of(pos.text_spec()),
            child.facts_spec().halfmoves,
        ),
{
    if child.halfmoves() == 0 {
        history.clear();
    } else {
        history.push(pos.hash());
    }
}

// --- suites ---------------------------------------------------------------------------------------

/// A suite of positions, no two of them the same.
#[derive(Debug)]
pub struct OpeningSuite {
    entries: Vec<SuiteEntry>,
    fens: Vec<String>,
    white_to_move: Vec<bool>,
    /// Where each position starts from: the FEN that was given, or nothing where
    /// the line starts from the starting position.
    roots: Vec<Option<String>>,
}

/// The position from which an entry starts.
pub open spec fn root_text(root: Option<Seq<char>>) -> Seq<char> {
    match root {
        Some(t) => t,
        None => start_text(),
    }
}

/// The position of an entry.
pub open spec fn goal(root: Option<Seq<char>>, line: Seq<Seq<char>>) -> Option<Seq<char>> {
    reached(root_text(root), line)
}

/// No two of the first `n` texts are the same.
pub open spec fn distinct(fens: Seq<Seq<char>>, n: int) -> bool {
    forall|i: int, j: int| 0 <= i < j < n ==> #[trigger] fens[i] != #[trigger] fens[j]
}

impl OpeningSuite {
    /// The names.
    pub closed spec fn titles(&self) -> Seq<Seq<char>> {
        Seq::new(self.entries@.len(), |i: int| self.entries@[i].name@)
    }

    /// The moves of an entry.
    pub closed spec fn line(&self, i: int) -> Seq<Seq<char>> {
        self.entries@[i].line()
    }

    /// The FENs of the positions.
    pub closed spec fn texts(&self) -> Seq<Seq<char>> {
        text::shown(self.fens@)
    }

    /// Whether White is to move.
    pub closed spec fn whites(&self) -> Seq<bool> {
        self.white_to_move@
    }

    /// The FEN that an entry starts from; nothing for the starting position.
    pub closed spec fn root(&self, i: int) -> Option<Seq<char>> {
        match self.roots@[i] {
            Some(t) => Some(t@),
            None => None,
        }
    }

    /// How many positions there are.
    pub open spec fn size(&self) -> int {
        self.titles().len() as int
    }

    /// Every entry leads to its position, and no position comes twice.
    pub open spec fn wf(&self) -> bool {
        &&& self.texts().len() == self.size()
        &&& self.whites().len() == self.size()
        &&& distinct(self.texts(), self.size())
        &&& forall|i: int|
            0 <= i < self.size() ==> #[trigger] goal(self.root(i), self.line(i)) is Some
                && self.texts()[i] == rules::canonical_fen(goal(self.root(i), self.line(i))->0)
                && self.whites()[i] == ((rules::facts_of(
                goal(self.root(i), self.line(i))->0,
            )->0).turn == Color::White)
        &&& forall|i: int|
            0 <= i < self.size() && #[trigger] self.root(i) is Some ==> rules::is_fen(
                self.root(i)->0,
            ) && rules::is_legal_fen(self.root(i)->0) && self.line(i).len() == 0
    }
}


/// The name and the moves of an opening of the classical suite.
pub open spec fn classical(i: int) -> (Seq<char>, Seq<char>) {
    if i == 0 {
        ("scotch"@, "e2e4 e7e5 g1f3 b8c6 d2d4 e5d4 f3d4 g8f6"@)
    } else if i == 1 {
        ("italian-giuoco"@, "e2e4 e7e5 g1f3 b8c6 f1c4 f8c5 c2c3 g8f6"@)
    } else if i == 2 {
        ("ruy-lopez"@, "e2e4 e7e5 g1f3 b8c6 f1b5 a7a6 b5a4 g8f6"@)
    } else if i == 3 {
        ("four-knights-spanish"@, "e2e4 e7e5 g1f3 b8c6 b1c3 g8f6 f1b5 f8b4"@)
    } else if i == 4 {
        ("sicilian-najdorf"@, "e2e4 c7c5 g1f3 d7d6 d2d4 c5d4 f3d4 g8f6 b1c3 a7a6"@)
    } else if i == 5 {
        ("sicilian-sveshnikov"@, "e2e4 c7c5 g1f3 b8c6 d2d4 c5d4 f3d4 g8f6 b1c3 e7e5"@)
    } else if i == 6 {
        ("sicilian-four-knights"@, "e2e4 c7c5 b1c3 b8c6 g1f3 g8f6 d2d4 c5d4"@)
    } else if i == 7 {
        ("french-advance"@, "e2e4 e7e6 d2d4 d7d5 e4e5 c7c5 c2c3 b8c6"@)
    } else if i == 8 {
        ("french-tarrasch"@, "e2e4 e7e6 d2d4 d7d5 b1d2 g8f6 e4e5 f6d7"@)
    } else if i == 9 {
        ("french-winawer"@, "e2e4 e7e6 d2d4 d7d5 b1c3 f8b4 e4e5 c7c5"@)
    } else if i == 10 {
        ("caro-advance"@, "e2e4 c7c6 d2d4 d7d5 e4e5 c8f5 g1f3 e7e6"@)
    } else if i == 11 {
        ("caro-classical"@, "e2e4 c7c6 d2d4 d7d5 b1c3 g8f6 e4e5 f6e4"@)
    } else if i == 12 {
        ("pirc"@, "e2e4 d7d6 d2d4 g8f6 b1c3 g7g6 f1e2 f8g7"@)
    } else if i == 13 {
        ("alekhine"@, "e2e4 g8f6 e4e5 f6d5 d2d4 d7d6 g1f3 c8g4"@)
    } else if i == 14 {
        ("queens-gambit-exchange"@, "d2d4 d7d5 c2c4 e7e6 b1c3 g8f6 c4d5 e6d5"@)
    } else if i == 15 {
        ("queens-gambit-slav"@, "d2d4 d7d5 c2c4 c7c6 b1c3 g8f6 g1f3 e7e6"@)
    } else if i == 16 {
        ("semi-slav"@, "d2d4 d7d5 c2c4 e7e6 b1c3 g8f6 g1f3 c7c6 e2e3"@)
    } else if i == 17 {
        ("kings-indian"@, "d2d4 g8f6 c2c4 g7g6 b1c3 f8g7 e2e4 d7d6"@)
    } else if i == 18 {
        ("grunfeld"@, "d2d4 g8f6 c2c4 g7g6 b1c3 d7d5 c4d5 f6d5"@)
    } else if i == 19 {
        ("nimzo-indian"@, "d2d4 g8f6 c2c4 e7e6 b1c3 f8b4 e2e3 c7c5"@)
    } else if i == 20 {
        ("catalan"@, "d2d4 g8f6 c2c4 e7e6 g2g3 d7d5 f1g2 f8e7"@)
    } else if i == 21 {
        ("dutch-leningrad"@, "d2d4 f7f5 g2g3 g8f6 f1g2 g7g6 g1f3 f8g7"@)
    } else if i == 22 {
        ("london-system"@, "d2d4 d7d5 c1f4 g8f6 e2e3 e7e6 g1f3 f8e7"@)
    } else if i == 23 {
        ("english"@, "c2c4 e7e5 b1c3 g8f6 g1f3 b8c6"@)
    } else if i == 24 {
        ("reti"@, "g1f3 d7d5 g2g3 g8f6 f1g2 e7e6 e2e3 f8e7"@)
    } else if i == 25 {
        ("petrov"@, "e2e4 e7e5 g1f3 g8f6 f3e5"@)
    } else if i == 26 {
        ("kings-gambit"@, "e2e4 e7e5 f2f4 e5f4 g1f3"@)
    } else if i == 27 {
        ("spanish-morphy"@, "e2e4 e7e5 g1f3 b8c6 f1b5 a7a6 b5a4"@)
    } else if i == 28 {
        ("italian-classical"@, "e2e4 e7e5 g1f3 b8c6 f1c4 f8c5 c2c3"@)
    } else if i == 29 {
        ("scotch-btm"@, "e2e4 e7e5 g1f3 b8c6 d2d4 e5d4 f3d4"@)
    } else if i == 30 {
        ("vienna"@, "e2e4 e7e5 b1c3 g8f6 f2f4"@)
    } else if i == 31 {
        ("three-knights"@, "e2e4 e7e5 g1f3 b8c6 b1c3"@)
    } else if i == 32 {
        ("bishop-opening"@, "e2e4 e7e5 f1c4 g8f6 d2d3"@)
    } else if i == 33 {
        ("sicilian-open"@, "e2e4 c7c5 g1f3 d7d6 d2d4 c5d4 f3d4"@)
    } else if i == 34 {
        ("sicilian-najdorf-btm"@, "e2e4 c7c5 g1f3 d7d6 d2d4 c5d4 f3d4 g8f6 b1c3 a7a6 f1e2"@)
    } else if i == 35 {
        ("french-tarrasch-btm"@, "e2e4 e7e6 d2d4 d7d5 b1d2"@)
    } else if i == 36 {
        ("french-winawer-btm"@, "e2e4 e7e6 d2d4 d7d5 b1c3 f8b4 e4e5"@)
    } else if i == 37 {
        ("caro-kann-5"@, "e2e4 c7c6 d2d4 d7d5 g1f3"@)
    } else if i == 38 {
        ("caro-classical-btm"@, "e2e4 c7c6 d2d4 d7d5 b1c3 d5e4 c3e4 c8f5 e4g3"@)
    } else if i == 39 {
        ("pirc-btm"@, "e2e4 d7d6 d2d4 g8f6 b1c3 g7g6 f1e2"@)
    } else if i == 40 {
        ("alekhine-btm"@, "e2e4 g8f6 e4e5 f6d5 d2d4 d7d6 c2c4"@)
    } else if i == 41 {
        ("scandinavian"@, "e2e4 d7d5 e4d5 g8f6 d2d4"@)
    } else if i == 42 {
        ("queens-gambit-accepted"@, "d2d4 d7d5 c2c4 d5c4 g1f3"@)
    } else if i == 43 {
        ("slav-5"@, "d2d4 d7d5 c2c4 c7c6 g1f3"@)
    } else if i == 44 {
        ("nimzo-btm"@, "d2d4 g8f6 c2c4 e7e6 b1c3 f8b4 e2e3"@)
    } else if i == 45 {
        ("kid-btm"@, "d2d4 g8f6 c2c4 g7g6 b1c3 f8g7 e2e4"@)
    } else if i == 46 {
        ("grunfeld-btm"@, "d2d4 g8f6 c2c4 g7g6 b1c3 d7d5 c4d5"@)
    } else {
        ("english-btm"@, "c2c4 e7e5 b1c3 g8f6 g1f3"@)
    }
}

/// An opening of the classical suite.
fn classical_line(i: usize) -> (r: (&'static str, &'static str))
    requires
        i < 48,
    ensures
        r.0@ == classical(i as int).0,
        r.1@ == classical(i as int).1,
{
    match i {
        0 => ("scotch", "e2e4 e7e5 g1f3 b8c6 d2d4 e5d4 f3d4 g8f6"),
        1 => ("italian-giuoco", "e2e4 e7e5 g1f3 b8c6 f1c4 f8c5 c2c3 g8f6"),
        2 => ("ruy-lopez", "e2e4 e7e5 g1f3 b8c6 f1b5 a7a6 b5a4 g8f6"),
        3 => ("four-knights-spanish", "e2e4 e7e5 g1f3 b8c6 b1c3 g8f6 f1b5 f8b4"),
        4 => ("sicilian-najdorf", "e2e4 c7c5 g1f3 d7d6 d2d4 c5d4 f3d4 g8f6 b1c3 a7a6"),
        5 => ("sicilian-sveshnikov", "e2e4 c7c5 g1f3 b8c6 d2d4 c5d4 f3d4 g8f6 b1c3 e7e5"),
        6 => ("sicilian-four-knights", "e2e4 c7c5 b1c3 b8c6 g1f3 g8f6 d2d4 c5d4"),
        7 => ("french-advance", "e2e4 e7e6 d2d4 d7d5 e4e5 c7c5 c2c3 b8c6"),
        8 => ("french-tarrasch", "e2e4 e7e6 d2d4 d7d5 b1d2 g8f6 e4e5 f6d7"),
        9 => ("french-winawer", "e2e4 e7e6 d2d4 d7d5 b1c3 f8b4 e4e5 c7c5"),
        10 => ("caro-advance", "e2e4 c7c6 d2d4 d7d5 e4e5 c8f5 g1f3 e7e6"),
        11 => ("caro-classical", "e2e4 c7c6 d2d4 d7d5 b1c3 g8f6 e4e5 f6e4"),
        12 => ("pirc", "e2e4 d7d6 d2d4 g8f6 b1c3 g7g6 f1e2 f8g7"),
        13 => ("alekhine", "e2e4 g8f6 e4e5 f6d5 d2d4 d7d6 g1f3 c8g4"),
        14 => ("queens-gambit-exchange", "d2d4 d7d5 c2c4 e7e6 b1c3 g8f6 c4d5 e6d5"),
        15 => ("queens-gambit-slav", "d2d4 d7d5 c2c4 c7c6 b1c3 g8f6 g1f3 e7e6"),
        16 => ("semi-slav", "d2d4 d7d5 c2c4 e7e6 b1c3 g8f6 g1f3 c7c6 e2e3"),
        17 => ("kings-indian", "d2d4 g8f6 c2c4 g7g6 b1c3 f8g7 e2e4 d7d6"),
        18 => ("grunfeld", "d2d4 g8f6 c2c4 g7g6 b1c3 d7d5 c4d5 f6d5"),
        19 => ("nimzo-indian", "d2d4 g8f6 c2c4 e7e6 b1c3 f8b4 e2e3 c7c5"),
        20 => ("catalan", "d2d4 g8f6 c2c4 e7e6 g2g3 d7d5 f1g2 f8e7"),
        21 => ("dutch-leningrad", "d2d4 f7f5 g2g3 g8f6 f1g2 g7g6 g1f3 f8g7"),
        22 => ("london-system", "d2d4 d7d5 c1f4 g8f6 e2e3 e7e6 g1f3 f8e7"),
        23 => ("english", "c2c4 e7e5 b1c3 g8f6 g1f3 b8c6"),
        24 => ("reti", "g1f3 d7d5 g2g3 g8f6 f1g2 e7e6 e2e3 f8e7"),
        25 => ("petrov", "e2e4 e7e5 g1f3 g8f6 f3e5"),
        26 => ("kings-gambit", "e2e4 e7e5 f2f4 e5f4 g1f3"),
        27 => ("spanish-morphy", "e2e4 e7e5 g1f3 b8c6 f1b5 a7a6 b5a4"),
        28 => ("italian-classical", "e2e4 e7e5 g1f3 b8c6 f1c4 f8c5 c2c3"),
        29 => ("scotch-btm", "e2e4 e7e5 g1f3 b8c6 d2d4 e5d4 f3d4"),
        30 => ("vienna", "e2e4 e7e5 b1c3 g8f6 f2f4"),
        31 => ("three-knights", "e2e4 e7e5 g1f3 b8c6 b1c3"),
        32 => ("bishop-opening", "e2e4 e7e5 f1c4 g8f6 d2d3"),
        33 => ("sicilian-open", "e2e4 c7c5 g1f3 d7d6 d2d4 c5d4 f3d4"),
        34 => ("sicilian-najdorf-btm", "e2e4 c7c5 g1f3 d7d6 d2d4 c5d4 f3d4 g8f6 b1c3 a7a6 f1e2"),
        35 => ("french-tarrasch-btm", "e2e4 e7e6 d2d4 d7d5 b1d2"),
        36 => ("french-winawer-btm", "e2e4 e7e6 d2d4 d7d5 b1c3 f8b4 e4e5"),
        37 => ("caro-kann-5", "e2e4 c7c6 d2d4 d7d5 g1f3"),
        38 => ("caro-classical-btm", "e2e4 c7c6 d2d4 d7d5 b1c3 d5e4 c3e4 c8f5 e4g3"),
        39 => ("pirc-btm", "e2e4 d7d6 d2d4 g8f6 b1c3 g7g6 f1e2"),
        40 => ("alekhine-btm", "e2e4 g8f6 e4e5 f6d5 d2d4 d7d6 c2c4"),
        41 => ("scandinavian", "e2e4 d7d5 e4d5 g8f6 d2d4"),
        42 => ("queens-gambit-accepted", "d2d4 d7d5 c2c4 d5c4 g1f3"),
        43 => ("slav-5", "d2d4 d7d5 c2c4 c7c6 g1f3"),
        44 => ("nimzo-btm", "d2d4 g8f6 c2c4 e7e6 b1c3 f8b4 e2e3"),
        45 => ("kid-btm", "d2d4 g8f6 c2c4 g7g6 b1c3 f8g7 e2e4"),
        46 => ("grunfeld-btm", "d2d4 g8f6 c2c4 g7g6 b1c3 d7d5 c4d5"),
        _ => ("english-btm", "c2c4 e7e5 b1c3 g8f6 g1f3"),
    }
}

/// The account of an entry that is taken up.
pub open spec fn found(root: Option<Seq<char>>, line: Seq<Seq<char>>) -> Option<Seq<char>> {
    match goal(root, line) {
        Some(t) => Some(rules::canonical_fen(t)),
        None => None,
    }
}

/// An entry cannot be taken up: its line is illegal, or an earlier one leads to
/// the same position.
pub open spec fn faulty(
    roots: Seq<Option<Seq<char>>>,
    lines: Seq<Seq<Seq<char>>>,
    k: int,
) -> bool {
    found(roots[k], lines[k]) is None || exists|j: int|
        0 <= j < k && found(#[trigger] roots[j], lines[j]) == found(roots[k], lines[k])
}

/// The lines of entries.
pub open spec fn lines_of(entries: Seq<SuiteEntry>) -> Seq<Seq<Seq<char>>> {
    Seq::new(entries.len(), |i: int| entries[i].line())
}

/// `n` entries from the starting position.
pub open spec fn no_roots(n: nat) -> Seq<Option<Seq<char>>> {
    Seq::new(n, |i: int| None)
}

/// The error for an entry that cannot be taken up.
pub open spec fn blames(e: SuiteError, entries: Seq<SuiteEntry>, k: int) -> bool {
    blames_line(e, entries[k].name@, entries[k].line())
}

/// The error for a line that cannot be taken up.
pub open spec fn blames_line(e: SuiteError, title: Seq<char>, line: Seq<Seq<char>>) -> bool {
    if goal(None, line) is None {
        e matches SuiteError::IllegalMove { name, ply } && name@ == title && exists|n: int|
            0 <= n < line.len() && ply@ == #[trigger] line[n] && goal(None, line.take(n)) is Some
                && goal(None, line.take(n + 1)) is None
    } else {
        e matches SuiteError::Duplicate(name) && name@ == title
    }
}

/// The error for the first line of the classical suite that cannot be taken up.
pub open spec fn classical_fault(e: SuiteError) -> bool {
    exists|k: int|
        0 <= k < 48 && #[trigger] faulty(no_roots(48), classical_lines(), k) && blames_line(
            e,
            classical(k).0,
            classical_lines()[k],
        ) && forall|j: int|
            0 <= j < k ==> !#[trigger] faulty(no_roots(48), classical_lines(), j)
}

/// Whether a text is among others.
fn listed(fens: &Vec<String>, fen: &String) -> (r: bool)
    ensures
        r == (exists|j: int| 0 <= j < fens@.len() && (#[trigger] fens@[j])@ == fen@),
{
    let mut j: usize = 0;
    while j < fens.len()
        invariant
            j <= fens@.len(),
            forall|k: int| 0 <= k < j ==> (#[trigger] fens@[k])@ != fen@,
        decreases fens@.len() - j,
    {
        if text::same(fens[j].as_str(), fen.as_str()) {
            return true;
        }
        j = j + 1;
    }
    false
}

/// Plays a line; an error is the place of the first illegal move.
fn play_line(root: &Position, line: &Vec<String>) -> (r: Result<Position, usize>)
    ensures
        r is Ok <==> reached(root.text_spec(), text::shown(line@)) is Some,
        r matches Ok(p) ==> reached(root.text_spec(), text::shown(line@)) == Some(p.text_spec())
            && (line@.len() > 0 ==> p.holds_facts()),
        r matches Ok(p) ==> line@.len() == 0 ==> p.facts_spec() == root.facts_spec(),
        r matches Err(n) ==> n < line@.len() && reached(
            root.text_spec(),
            text::shown(line@).take(n as int),
        ) is Some && reached(root.text_spec(), text::shown(line@).take(n + 1)) is None,
{
    let ghost all = text::shown(line@);
    let ghost t = root.text_spec();
    let mut pos: Position = root.clone();
    let mut n: usize = 0;
    assert(all.take(0) =~= Seq::<Seq<char>>::empty());
    while n < line.len()
        invariant
            n <= line@.len(),
            all == text::shown(line@),
            t == root.text_spec(),
            reached(t, all.take(n as int)) == Some(pos.text_spec()),
            n > 0 ==> pos.holds_facts(),
            n == 0 ==> pos.facts_spec() == root.facts_spec(),
        decreases line@.len() - n,
    {
        proof {
            assert(all.take(n + 1).drop_last() =~= all.take(n as int));
            assert(all.take(n + 1).last() == line@[n as int]@);
        }
        match pos.play_uci(line[n].as_str()) {
            Ok((child, _m)) => {
                pos = child;
            },
            Err(_e) => {
                proof {
                    if reached(t, all) is Some {
                        lemma_prefix(t, all, n + 1);
                    }
                }
                return Err(n);
            },
        }
        n = n + 1;
    }
    assert(all.take(n as int) =~= all);
    Ok(pos)
}

impl OpeningSuite {
    /// Every entry leads to its position, and no position comes twice.
    #[verifier::type_invariant]
    spec fn sound(&self) -> bool {
        &&& self.wf()
        &&& self.roots@.len() == self.entries@.len()
    }

    /// The suite with the entries, if every line is legal and no two lead to the
    /// same position. The error names the first entry that cannot be taken up.
    #[verifier::spinoff_prover]
    #[verifier::rlimit(40)]
    pub fn from_entries(entries: Vec<SuiteEntry>) -> (r: Result<OpeningSuite, SuiteError>)
        ensures
            r is Ok <==> (forall|k: int|
                0 <= k < entries@.len() ==> !#[trigger] faulty(
                    no_roots(entries@.len()),
                    lines_of(entries@),
                    k,
                )),
            r matches Ok(s) ==> s.wf() && s.size() == entries@.len() && forall|i: int|
                0 <= i < s.size() ==> #[trigger] s.titles()[i] == entries@[i].name@ && s.line(i)
                    == entries@[i].line() && s.root(i) is None,
            r matches Err(e) ==> exists|k: int|
                0 <= k < entries@.len() && #[trigger] faulty(
                    no_roots(entries@.len()),
                    lines_of(entries@),
                    k,
                ) && blames(e, entries@, k) && forall|j: int|
                    0 <= j < k ==> !#[trigger] faulty(
                        no_roots(entries@.len()),
                        lines_of(entries@),
                        j,
                    ),
    {
        let ghost all = entries@;
        let ghost roots_seq = no_roots(all.len());
        let ghost lines = lines_of(all);
        let mut fens: Vec<String> = Vec::new();
        let mut white_to_move: Vec<bool> = Vec::new();
        let mut roots: Vec<Option<String>> = Vec::new();
        let start: Position = Position::startpos();
        let mut k: usize = 0;
        while k < entries.len()
            invariant
                all == entries@,
                roots_seq == no_roots(all.len()),
                lines == lines_of(all),
                start.text_spec() == start_text(),
                start.holds_facts(),
                k <= all.len(),
                fens@.len() == k,
                white_to_move@.len() == k,
                roots@.len() == k,
                forall|i: int| 0 <= i < k ==> #[trigger] roots@[i] is None,
                forall|i: int|
                    0 <= i < k ==> found(None, #[trigger] lines[i]) == Some(fens@[i]@),
                forall|i: int|
                    0 <= i < k ==> white_to_move@[i] == ((rules::facts_of(
                        goal(None, #[trigger] lines[i])->0,
                    )->0).turn == Color::White),
                forall|i: int| 0 <= i < k ==> !#[trigger] faulty(roots_seq, lines, i),
            decreases all.len() - k,
        {
            assert(lines[k as int] == all[k as int].line());
            assert(roots_seq[k as int] is None);
            match play_line(&start, &entries[k].plies) {
                Ok(pos) => {
                    let fen: String = pos.fen();
                    assert(found(None, lines[k as int]) == Some(fen@));
                    if listed(&fens, &fen) {
                        proof {
                            let j = choose|j: int| 0 <= j < fens@.len() && (#[trigger] fens@[j])@
                                == fen@;
                            assert(found(None, lines[j]) == Some(fens@[j]@));
                            assert(roots_seq[j] is None);
                            assert(faulty(roots_seq, lines, k as int));
                        }
                        return Err(SuiteError::Duplicate(entries[k].name.clone()));
                    }
                    proof {
                        assert forall|j: int| 0 <= j < k implies found(#[trigger] roots_seq[j], lines[j])
                            != found(roots_seq[k as int], lines[k as int]) by {
                            assert(found(None, lines[j]) == Some(fens@[j]@));
                            assert(fens@[j]@ != fen@);
                        }
                        assert(!faulty(roots_seq, lines, k as int));
                    }
                    white_to_move.push(pos.turn() == Color::White);
                    fens.push(fen);
                    roots.push(None);
                },
                Err(n) => {
                    let ply: String = entries[k].plies[n].clone();
                    proof {
                        assert(faulty(roots_seq, lines, k as int));
                        assert(all[k as int].line()[n as int] == ply@);
                    }
                    return Err(SuiteError::IllegalMove { name: entries[k].name.clone(), ply });
                },
            }
            k = k + 1;
        }
        proof {
            let texts = text::shown(fens@);
            assert forall|i: int, j: int| 0 <= i < j < all.len() implies #[trigger] texts[i]
                != #[trigger] texts[j] by {
                assert(!faulty(roots_seq, lines, j));
                assert(found(None, lines[i]) == Some(fens@[i]@));
                assert(found(None, lines[j]) == Some(fens@[j]@));
                assert(roots_seq[i] is None && roots_seq[j] is None);
            }
            assert forall|i: int| 0 <= i < all.len() implies lines[i] == #[trigger] all[i].line() by {}
        }
        let suite: OpeningSuite = OpeningSuite { entries, fens, white_to_move, roots };
        Ok(suite)
    }

    /// The suite of positions given as FENs, if every FEN is a position and no two
    /// are the same. The error names the first that cannot be taken up.
    #[verifier::spinoff_prover]
    #[verifier::rlimit(40)]
    pub fn from_positions(list: &[(&str, &str)]) -> (r: Result<OpeningSuite, SuiteError>)
        ensures
            r is Ok <==> (forall|k: int| 0 <= k < list@.len() ==> !#[trigger] unfit(list@, k)),
            r matches Ok(s) ==> s.wf() && s.size() == list@.len() && forall|i: int|
                0 <= i < s.size() ==> #[trigger] s.titles()[i] == list@[i].0@ && s.line(i)
                    == Seq::<Seq<char>>::empty() && s.root(i) == Some(list@[i].1@),
            r matches Err(e) ==> exists|k: int|
                0 <= k < list@.len() && #[trigger] unfit(list@, k) && (if !settles(list@[k].1@) {
                    e matches SuiteError::BadFen { name, fen } && name@ == list@[k].0@ && fen@
                        == list@[k].1@
                } else {
                    e matches SuiteError::DuplicatePosition(name) && name@ == list@[k].0@
                }) && forall|j: int| 0 <= j < k ==> !#[trigger] unfit(list@, j),
    {
        let ghost all = list@;
        let mut entries: Vec<SuiteEntry> = Vec::new();
        let mut fens: Vec<String> = Vec::new();
        let mut white_to_move: Vec<bool> = Vec::new();
        let mut roots: Vec<Option<String>> = Vec::new();
        let mut k: usize = 0;
        while k < list.len()
            invariant
                all == list@,
                k <= all.len(),
                entries@.len() == k,
                fens@.len() == k,
                white_to_move@.len() == k,
                roots@.len() == k,
                forall|i: int|
                    0 <= i < k ==> (#[trigger] entries@[i]).name@ == all[i].0@
                        && entries@[i].plies@.len() == 0,
                forall|i: int|
                    0 <= i < k ==> (#[trigger] roots@[i]) is Some && roots@[i]->0@ == all[i].1@,
                forall|i: int|
                    0 <= i < k ==> (#[trigger] fens@[i])@ == rules::canonical_fen(all[i].1@),
                forall|i: int| 0 <= i < k ==> settles((#[trigger] all[i]).1@),
                forall|i: int|
                    0 <= i < k ==> #[trigger] white_to_move@[i] == ((rules::facts_of(
                        all[i].1@,
                    )->0).turn == Color::White),
                forall|i: int| 0 <= i < k ==> !#[trigger] unfit(all, i),
            decreases all.len() - k,
        {
            let name: &str = list[k].0;
            let text: &str = list[k].1;
            match Position::from_fen(text) {
                Ok(pos) => {
                    let fen: String = pos.fen();
                    if listed(&fens, &fen) {
                        proof {
                            let j = choose|j: int| 0 <= j < fens@.len() && (#[trigger] fens@[j])@
                                == fen@;
                            assert(rules::canonical_fen(all[j].1@) == rules::canonical_fen(
                                all[k as int].1@,
                            ));
                            assert(unfit(all, k as int));
                        }
                        return Err(SuiteError::DuplicatePosition(name.to_owned()));
                    }
                    proof {
                        assert forall|j: int| 0 <= j < k implies rules::canonical_fen(
                            (#[trigger] all[j]).1@,
                        ) != rules::canonical_fen(all[k as int].1@) by {
                            assert(fens@[j]@ != fen@);
                        }
                        assert(!unfit(all, k as int));
                        assert(settles(all[k as int].1@));
                        assert(pos.text_spec() == all[k as int].1@);
                    }
                    white_to_move.push(pos.turn() == Color::White);
                    fens.push(fen);
                    roots.push(Some(text.to_owned()));
                    entries.push(SuiteEntry { name: name.to_owned(), plies: Vec::new() });
                },
                Err(_e) => {
                    assert(unfit(all, k as int));
                    return Err(SuiteError::BadFen { name: name.to_owned(), fen: text.to_owned() });
                },
            }
            k = k + 1;
        }
        proof {
            let texts = text::shown(fens@);
            assert forall|i: int, j: int| 0 <= i < j < all.len() implies #[trigger] texts[i]
                != #[trigger] texts[j] by {
                assert(!unfit(all, j));
                assert(fens@[i]@ == rules::canonical_fen(all[i].1@));
                assert(fens@[j]@ == rules::canonical_fen(all[j].1@));
            }
            assert forall|i: int| 0 <= i < all.len() implies text::shown(entries@[i].plies@)
                == Seq::<Seq<char>>::empty() && (#[trigger] entries@[i]).line() == Seq::<
                Seq<char>,
            >::empty() by {
                assert(text::shown(entries@[i].plies@) =~= Seq::<Seq<char>>::empty());
            }
            assert forall|i: int| 0 <= i < all.len() implies rules::is_fen(
                (#[trigger] roots@[i])->0@,
            ) && rules::is_legal_fen(roots@[i]->0@) by {
                assert(fens@[i]@ == rules::canonical_fen(all[i].1@));
            }
            assert forall|i: int| 0 <= i < all.len() implies goal(
                Some((#[trigger] roots@[i])->0@),
                entries@[i].line(),
            ) == Some(all[i].1@) by {
                assert(entries@[i].line().len() == 0);
            }
            assert forall|i: int| 0 <= i < all.len() implies (#[trigger] entries@[i]).line().len()
                == 0 && roots@[i] is Some && fens@[i]@ == rules::canonical_fen(all[i].1@) by {}
        }
        let suite: OpeningSuite = OpeningSuite { entries, fens, white_to_move, roots };
        Ok(suite)
    }

    /// The classical suite. It is refused only if one of its lines were illegal, or
    /// two of them led to the same position.
    pub fn classical_v1() -> (r: Result<OpeningSuite, SuiteError>)
        ensures
            r is Ok <==> (forall|k: int|
                0 <= k < 48 ==> !#[trigger] faulty(no_roots(48), classical_lines(), k)),
            r matches Ok(s) ==> s.wf() && s.size() == 48 && forall|i: int|
                0 <= i < 48 ==> #[trigger] s.titles()[i] == classical(i).0 && s.line(i)
                    == text::parts(classical(i).1, ' ') && s.root(i) is None,
            r matches Err(e) ==> classical_fault(e),
    {
        let mut entries: Vec<SuiteEntry> = Vec::new();
        let mut i: usize = 0;
        while i < 48
            invariant
                i <= 48,
                entries@.len() == i,
                forall|k: int|
                    0 <= k < i ==> (#[trigger] entries@[k]).name@ == classical(k).0
                        && entries@[k].line() == text::parts(classical(k).1, ' '),
            decreases 48 - i,
        {
            let (name, line) = classical_line(i);
            entries.push(SuiteEntry { name: name.to_owned(), plies: text::split(line, ' ') });
            i = i + 1;
        }
        let ghost all = entries@;
        assert(lines_of(all) =~= classical_lines());
        let r: Result<OpeningSuite, SuiteError> = OpeningSuite::from_entries(entries);
        proof {
            if r is Err {
                let e = r->Err_0;
                let k = choose|k: int|
                    0 <= k < all.len() && #[trigger] faulty(no_roots(all.len()), lines_of(all), k)
                        && blames(e, all, k) && forall|j: int|
                        0 <= j < k ==> !#[trigger] faulty(no_roots(all.len()), lines_of(all), j);
                assert(all[k].line() == classical_lines()[k]);
                assert(faulty(no_roots(48), classical_lines(), k));
            }
        }
        r
    }

    /// How many positions there are.
    pub fn len(&self) -> (r: usize)
        ensures
            r == self.size(),
    {
        self.entries.len()
    }

    /// Whether there are no positions.
    pub fn is_empty(&self) -> (r: bool)
        ensures
            r == (self.size() == 0),
    {
        self.entries.len() == 0
    }

    /// The names, in the order of the suite.
    pub fn names(&self) -> (r: Vec<String>)
        ensures
            text::shown(r@) == self.titles(),
    {
        let mut out: Vec<String> = Vec::new();
        let mut i: usize = 0;
        while i < self.entries.len()
            invariant
                i <= self.entries@.len(),
                out@.len() == i,
                forall|k: int| 0 <= k < i ==> (#[trigger] out@[k])@ == self.entries@[k].name@,
            decreases self.entries@.len() - i,
        {
            out.push(self.entries[i].name.clone());
            i = i + 1;
        }
        assert(text::shown(out@) =~= self.titles());
        out
    }

    /// An entry.
    pub fn entry(&self, i: usize) -> (r: &SuiteEntry)
        requires
            i < self.size(),
        ensures
            r.name@ == self.titles()[i as int],
            r.line() == self.line(i as int),
    {
        &self.entries[i]
    }

    /// The FEN of a position.
    pub fn fen_of(&self, i: usize) -> (r: &str)
        requires
            i < self.size(),
        ensures
            r@ == self.texts()[i as int],
            goal(self.root(i as int), self.line(i as int)) is Some,
            r@ == rules::canonical_fen(goal(self.root(i as int), self.line(i as int))->0),
    {
        proof {
            use_type_invariant(self);
            assert(goal(self.root(i as int), self.line(i as int)) is Some);
        }
        self.fens[i].as_str()
    }

    /// How many positions White is to move in.
    pub fn white_to_move_count(&self) -> (r: usize)
        ensures
            r == sums::ranged(self.size(), sums::flagged(moves_white(self.whites()))),
    {
        proof {
            use_type_invariant(self);
        }
        let ghost f = sums::flagged(moves_white(self.whites()));
        let mut count: usize = 0;
        let mut i: usize = 0;
        while i < self.white_to_move.len()
            invariant
                self.whites() == self.white_to_move@,
                f == sums::flagged(moves_white(self.whites())),
                i <= self.white_to_move@.len(),
                count <= i,
                count == sums::ranged(i as int, f),
            decreases self.white_to_move@.len() - i,
        {
            if self.white_to_move[i] {
                count = count + 1;
            }
            i = i + 1;
        }
        count
    }

    /// An order of the positions that a seed determines, in which each comes
    /// once.
    pub fn order(&self, seed: u64) -> (r: Vec<usize>)
        ensures
            r@ == shuffled(in_order(self.size() as nat), seed, self.size() - 1),
            is_order(r@, self.size() as nat),
    {
        let n: usize = self.entries.len();
        let mut idx: Vec<usize> = Vec::new();
        let mut k: usize = 0;
        while k < n
            invariant
                k <= n,
                idx@.len() == k,
                forall|i: int| 0 <= i < k ==> #[trigger] idx@[i] == i,
            decreases n - k,
        {
            idx.push(k);
            k = k + 1;
        }
        proof {
            assert(idx@ =~= in_order(n as nat));
            law_order_takes_each_once(n as nat, seed);
        }
        let mut rng: SplitMix64 = SplitMix64(seed);
        let mut i: usize = if n == 0 {
            0
        } else {
            n - 1
        };
        while i > 0
            invariant
                i == 0 || i < n,
                idx@.len() == n,
                shuffled(idx@, rng.0, i as int) == shuffled(in_order(n as nat), seed, n - 1),
            decreases i,
        {
            let ghost before = rng.0;
            let drawn: u64 = rng.next();
            proof {
                reveal_with_fuel(book::advanced, 2);
                assert(book::advanced(before, 1) == rng.0);
            }
            let j: usize = (drawn % (i as u64 + 1)) as usize;
            let x: usize = idx[i];
            let y: usize = idx[j];
            let ghost held = idx@;
            idx.set(i, y);
            idx.set(j, x);
            assert(idx@ =~= exchanged(held, i as int, j as int));
            i = i - 1;
        }
        idx
    }

    /// The position of an entry, the hashes of the positions that a game would
    /// have seen since the last move that cannot be taken back, and the moves.
    pub fn position_of(&self, i: usize) -> (r: (Position, Vec<u64>, Vec<RawMove>))
        requires
            i < self.size(),
        ensures
            goal(self.root(i as int), self.line(i as int)) == Some(r.0.text_spec()),
            r.0.holds_facts(),
            r.1@ == window_of(root_text(self.root(i as int)), self.line(i as int)),
            r.2@ == moves_of(root_text(self.root(i as int)), self.line(i as int)),
    {
        proof {
            use_type_invariant(self);
            assert(goal(self.root(i as int), self.line(i as int)) is Some);
        }
        let root: Position = match &self.roots[i] {
            Some(fen) => match Position::from_fen(fen.as_str()) {
                Ok(pos) => pos,
                Err(_e) => Position::startpos(),
            },
            None => Position::startpos(),
        };
        let plies: &Vec<String> = &self.entries[i].plies;
        let ghost t = root.text_spec();
        let ghost line = self.line(i as int);
        assert(t == root_text(self.root(i as int)));
        let mut pos: Position = root;
        let mut history: Vec<u64> = Vec::new();
        let mut opened: Vec<RawMove> = Vec::new();
        let mut n: usize = 0;
        assert(line.take(0) =~= Seq::<Seq<char>>::empty());
        while n < plies.len()
            invariant
                line == text::shown(plies@),
                n <= plies@.len(),
                reached(t, line) is Some,
                reached(t, line.take(n as int)) == Some(pos.text_spec()),
                pos.holds_facts(),
                history@ == window_of(t, line.take(n as int)),
                opened@ == moves_of(t, line.take(n as int)),
            decreases plies@.len() - n,
        {
            proof {
                lemma_prefix(t, line, n + 1);
                assert(line.take(n + 1).drop_last() =~= line.take(n as int));
                assert(line.take(n + 1).last() == plies@[n as int]@);
            }
            match pos.play_uci(plies[n].as_str()) {
                Ok((child, m)) => {
                    record(&mut history, &pos, &child);
                    opened.push(m);
                    pos = child;
                },
                Err(_e) => {},
            }
            n = n + 1;
        }
        assert(line.take(n as int) =~= line);
        (pos, history, opened)
    }
}

/// Whether White is to move in a position of a suite.
pub open spec fn moves_white(whites: Seq<bool>) -> spec_fn(int) -> bool {
    |i: int| whites[i]
}

/// The lines of the classical suite.
pub open spec fn classical_lines() -> Seq<Seq<Seq<char>>> {
    Seq::new(48, |i: int| text::parts(classical(i).1, ' '))
}

/// A text is a FEN of a position.
pub open spec fn settles(fen: Seq<char>) -> bool {
    rules::is_fen(fen) && rules::is_legal_fen(fen)
}

/// A FEN cannot be taken up: it is no position, or an earlier one is the same.
pub open spec fn unfit(list: Seq<(&str, &str)>, k: int) -> bool {
    !settles(list[k].1@) || exists|j: int|
        0 <= j < k && rules::canonical_fen((#[trigger] list[j]).1@) == rules::canonical_fen(
            list[k].1@,
        )
}

/// The suite with a name.
pub fn suite_by_name(name: &str) -> (r: Result<OpeningSuite, SuiteError>)
    ensures
        name@ != "classical-v1"@ ==> (r matches Err(SuiteError::UnknownSuite(t)) && t@ == name@),
        name@ == "classical-v1"@ ==> (r is Ok <==> (forall|k: int|
            0 <= k < 48 ==> !#[trigger] faulty(no_roots(48), classical_lines(), k))),
        name@ == "classical-v1"@ ==> (r matches Ok(s) ==> s.wf() && s.size() == 48 && forall|
            i: int,
        |
            0 <= i < 48 ==> #[trigger] s.titles()[i] == classical(i).0 && s.line(i)
                == text::parts(classical(i).1, ' ') && s.root(i) is None),
        name@ == "classical-v1"@ ==> (r matches Err(e) ==> classical_fault(e)),
{
    if text::same(name, "classical-v1") {
        OpeningSuite::classical_v1()
    } else {
        Err(SuiteError::UnknownSuite(name.to_owned()))
    }
}

// --- orders ---------------------------------------------------------------------------------------

/// The numbers below `n`, in order.
pub open spec fn in_order(n: nat) -> Seq<usize> {
    Seq::new(n, |i: int| i as usize)
}

/// A list with two places exchanged.
pub open spec fn exchanged(s: Seq<usize>, i: int, j: int) -> Seq<usize> {
    s.update(i, s[j]).update(j, s[i])
}

/// A list shuffled from place `i` down: each place is exchanged with one drawn from
/// those up to it.
pub open spec fn shuffled(s: Seq<usize>, state: u64, i: int) -> Seq<usize>
    decreases i,
{
    if i <= 0 {
        s
    } else {
        let next = book::advanced(state, 1);
        shuffled(exchanged(s, i, book::mixed(next) as int % (i + 1)), next, i - 1)
    }
}

/// Each number below `n` comes, and none comes twice.
pub open spec fn is_order(s: Seq<usize>, n: nat) -> bool {
    &&& s.len() == n
    &&& forall|i: int| 0 <= i < n ==> #[trigger] s[i] < n
    &&& forall|i: int, j: int| 0 <= i < j < n ==> #[trigger] s[i] != #[trigger] s[j]
    &&& forall|v: int| 0 <= v < n ==> #[trigger] s.contains(v as usize)
}

proof fn lemma_shuffled(s: Seq<usize>, n: nat, state: u64, i: int)
    requires
        is_order(s, n),
        i < n,
    ensures
        is_order(shuffled(s, state, i), n),
    decreases i,
{
    if i > 0 {
        let next = book::advanced(state, 1);
        let j = book::mixed(next) as int % (i + 1);
        let e = exchanged(s, i, j);
        assert forall|v: int| 0 <= v < n implies #[trigger] e.contains(v as usize) by {
            assert(s.contains(v as usize));
            let k = choose|k: int| 0 <= k < s.len() && s[k] == v as usize;
            let m = if k == i {
                j
            } else if k == j {
                i
            } else {
                k
            };
            assert(e[m] == v as usize);
        }
        lemma_shuffled(e, n, next, i - 1);
    }
}

/// The order of a suite takes each position once, whatever the seed.
pub proof fn law_order_takes_each_once(n: nat, seed: u64)
    requires
        n <= usize::MAX,
    ensures
        is_order(shuffled(in_order(n), seed, n - 1), n),
{
    let s = in_order(n);
    assert forall|v: int| 0 <= v < n implies #[trigger] s.contains(v as usize) by {
        assert(s[v] == v as usize);
    }
    if n > 0 {
        lemma_shuffled(s, n, seed, n - 1);
    }
}

/// A position that can come again is taken note of behind the earlier ones; after a move that
/// cannot be taken back none of them can, and nothing is kept.
pub proof fn law_windows(window: Seq<u64>, hash: u64, halfmoves: u32, i: int)
    ensures
        halfmoves == 0 ==> noted(window, hash, halfmoves).len() == 0,
        halfmoves > 0 ==> noted(window, hash, halfmoves).len() == window.len() + 1
            && noted(window, hash, halfmoves).last() == hash,
        halfmoves > 0 && 0 <= i < window.len() ==> noted(window, hash, halfmoves)[i] == window[i],
{
}

} // verus!
