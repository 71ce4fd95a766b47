//! Moves, roles, depths and scores.
use vstd::prelude::*;

verus! {

/// The deepest line, in plies, that a search follows.
pub const MAX_PLY: usize = 128;

/// The score of being mated at the root.
pub const MATE: i32 = 24_128;

/// The smallest score that announces a mate.
pub const MATE_ZONE: i32 = 24_000;

/// Whether a score announces a mate, for either side.
pub fn is_mate(score: i32) -> (r: bool)
    ensures
        r == (score >= MATE_ZONE || score <= -MATE_ZONE),
{
    score >= MATE_ZONE || score <= -MATE_ZONE
}

/// What a piece is, whoever owns it.
#[derive(Copy, Clone, PartialEq, Eq, Debug, Hash, PartialOrd, Ord, Structural)]
pub enum Role {
    Pawn,
    Knight,
    Bishop,
    Rook,
    Queen,
    King,
}

impl Role {
    /// 1 for a pawn up to 6 for a king.
    pub open spec fn code_spec(self) -> u8 {
        match self {
            Role::Pawn => 1,
            Role::Knight => 2,
            Role::Bishop => 3,
            Role::Rook => 4,
            Role::Queen => 5,
            Role::King => 6,
        }
    }

    /// 1 for a pawn up to 6 for a king.
    pub fn code(self) -> (r: u8)
        ensures
            r == self.code_spec(),
            1 <= r <= 6,
    {
        match self {
            Role::Pawn => 1,
            Role::Knight => 2,
            Role::Bishop => 3,
            Role::Rook => 4,
            Role::Queen => 5,
            Role::King => 6,
        }
    }
}

/// A move in sixteen bits: the square it starts on, the square it ends on and
/// its kind. Castling is written as the king moving onto its own rook.
#[derive(Copy, Clone, PartialEq, Eq, Debug, Hash, PartialOrd, Ord, Structural)]
pub struct RawMove(u16);

impl RawMove {
    /// The packed word.
    pub closed spec fn word(self) -> int {
        self.0 as int
    }

    pub open spec fn from_sq(self) -> int {
        self.word() % 64
    }

    pub open spec fn to_sq(self) -> int {
        (self.word() / 64) % 64
    }

    pub open spec fn kind_spec(self) -> int {
        self.word() / 4096
    }

    pub open spec fn promotion_spec(self) -> Option<Role> {
        if self.kind_spec() == 10 {
            Some(Role::Knight)
        } else if self.kind_spec() == 11 {
            Some(Role::Bishop)
        } else if self.kind_spec() == 12 {
            Some(Role::Rook)
        } else if self.kind_spec() == 13 {
            Some(Role::Queen)
        } else {
            None
        }
    }

    /// The move with the given squares and kind.
    pub closed spec fn made(from: int, to: int, kind: int) -> RawMove {
        RawMove((from + 64 * to + 4096 * kind) as u16)
    }

    /// The move with a packed word.
    pub closed spec fn with_word(w: u16) -> RawMove {
        RawMove(w)
    }

    /// The move with a packed word.
    pub fn of_raw(w: u16) -> (r: RawMove)
        ensures
            r == Self::with_word(w),
            r.word() == w,
    {
        RawMove(w)
    }

    /// A move is the one with its word.
    pub proof fn lemma_word(self, w: u16)
        ensures
            Self::with_word(w).word() == w,
            w == self.word() ==> self == Self::with_word(w),
    {
    }

    /// A move is made of its squares and its kind.
    pub proof fn lemma_made(from: int, to: int, kind: int)
        requires
            0 <= from < 64,
            0 <= to < 64,
            0 <= kind < 16,
        ensures
            Self::made(from, to, kind).from_sq() == from,
            Self::made(from, to, kind).to_sq() == to,
            Self::made(from, to, kind).kind_spec() == kind,
    {
    }

    /// A move from `from` to `to`.
    pub fn new(from: usize, to: usize, kind: u8) -> (r: RawMove)
        requires
            from < 64,
            to < 64,
            kind < 16,
        ensures
            r == Self::made(from as int, to as int, kind as int),
            r.from_sq() == from,
            r.to_sq() == to,
            r.kind_spec() == kind,
    {
        RawMove((from + 64 * to) as u16 + 4096 * kind as u16)
    }

    /// The move that is no move.
    pub fn null() -> (r: RawMove)
        ensures
            r == Self::made(0, 0, 0),
            r.from_sq() == 0,
            r.to_sq() == 0,
            r.kind_spec() == 0,
    {
        RawMove(0)
    }

    pub fn from(self) -> (r: usize)
        ensures
            r == self.from_sq(),
            r < 64,
    {
        (self.0 % 64) as usize
    }

    pub fn to(self) -> (r: usize)
        ensures
            r == self.to_sq(),
            r < 64,
    {
        ((self.0 / 64) % 64) as usize
    }

    pub fn kind(self) -> (r: u8)
        ensures
            r == self.kind_spec(),
            r < 16,
    {
        (self.0 / 4096) as u8
    }

    /// The packed word.
    pub open spec fn raw_spec(self) -> u16 {
        self.word() as u16
    }

    /// The packed word, which orders moves.
    pub fn raw(self) -> (r: u16)
        ensures
            r == self.word(),
            r == self.raw_spec(),
    {
        self.0
    }

    /// The piece that a pawn turns into.
    pub fn promotion(self) -> (r: Option<Role>)
        ensures
            r == self.promotion_spec(),
    {
        let k: u16 = self.0 / 4096;
        if k == 10 {
            Some(Role::Knight)
        } else if k == 11 {
            Some(Role::Bishop)
        } else if k == 12 {
            Some(Role::Rook)
        } else if k == 13 {
            Some(Role::Queen)
        } else {
            None
        }
    }

    pub fn is_promotion(self) -> (r: bool)
        ensures
            r == (self.promotion_spec() is Some),
    {
        let k: u16 = self.0 / 4096;
        k >= 10 && k <= 13
    }

    pub fn is_en_passant(self) -> (r: bool)
        ensures
            r == (self.kind_spec() == EN_PASSANT),
    {
        self.0 / 4096 == 2
    }

    pub fn is_castle(self) -> (r: bool)
        ensures
            r == (self.kind_spec() == CASTLE),
    {
        self.0 / 4096 == 1
    }

    /// The move as UCI writes it: the two squares, castling by where the king
    /// goes, and the letter of the piece that a pawn turns into.
    pub open spec fn uci_spec(self) -> Seq<char> {
        square_name(self.from_sq()) + square_name(
            if self.kind_spec() == CASTLE {
                8 * (self.from_sq() / 8) + (if self.to_sq() > self.from_sq() {
                    6int
                } else {
                    2
                })
            } else {
                self.to_sq()
            },
        ) + promotion_letter(self.promotion_spec())
    }

    /// The move as UCI writes it.
    pub fn to_uci(self) -> (r: String)
        ensures
            r@ == self.uci_spec(),
    {
        let from: usize = self.from();
        let to: usize = self.to();
        let goal: usize = if self.is_castle() {
            if to > from {
                8 * (from / 8) + 6
            } else {
                8 * (from / 8) + 2
            }
        } else {
            to
        };
        let mut s: String = file_str(from % 8).to_owned();
        s.append(rank_str(from / 8));
        s.append(file_str(goal % 8));
        s.append(rank_str(goal / 8));
        let letter: &'static str = match self.promotion() {
            Some(Role::Knight) => "n",
            Some(Role::Bishop) => "b",
            Some(Role::Rook) => "r",
            Some(Role::Queen) => "q",
            _ => "",
        };
        s.append(letter);
        proof {
            reveal_strlit("");
            assert(s@ =~= self.uci_spec());
        }
        s
    }
}

/// The name of a file.
pub open spec fn file_name(f: int) -> Seq<char> {
    if f == 0 {
        "a"@
    } else if f == 1 {
        "b"@
    } else if f == 2 {
        "c"@
    } else if f == 3 {
        "d"@
    } else if f == 4 {
        "e"@
    } else if f == 5 {
        "f"@
    } else if f == 6 {
        "g"@
    } else {
        "h"@
    }
}

/// The name of a rank.
pub open spec fn rank_name(r: int) -> Seq<char> {
    if r == 0 {
        "1"@
    } else if r == 1 {
        "2"@
    } else if r == 2 {
        "3"@
    } else if r == 3 {
        "4"@
    } else if r == 4 {
        "5"@
    } else if r == 5 {
        "6"@
    } else if r == 6 {
        "7"@
    } else {
        "8"@
    }
}

/// The name of a square.
pub open spec fn square_name(s: int) -> Seq<char> {
    file_name(s % 8) + rank_name(s / 8)
}

/// The letter of the piece that a pawn turns into; nothing for any other move.
pub open spec fn promotion_letter(role: Option<Role>) -> Seq<char> {
    match role {
        Some(Role::Knight) => "n"@,
        Some(Role::Bishop) => "b"@,
        Some(Role::Rook) => "r"@,
        Some(Role::Queen) => "q"@,
        _ => Seq::empty(),
    }
}

fn file_str(f: usize) -> (r: &'static str)
    requires
        f < 8,
    ensures
        r@ == file_name(f as int),
{
    match f {
        0 => "a",
        1 => "b",
        2 => "c",
        3 => "d",
        4 => "e",
        5 => "f",
        6 => "g",
        _ => "h",
    }
}

fn rank_str(k: usize) -> (r: &'static str)
    requires
        k < 8,
    ensures
        r@ == rank_name(k as int),
{
    match k {
        0 => "1",
        1 => "2",
        2 => "3",
        3 => "4",
        4 => "5",
        5 => "6",
        6 => "7",
        _ => "8",
    }
}

/// A list of moves.
pub struct MoveList {
    moves: Vec<RawMove>,
}

impl MoveList {
    pub closed spec fn view(&self) -> Seq<RawMove> {
        self.moves@
    }

    pub fn new() -> (r: MoveList)
        ensures
            r@.len() == 0,
    {
        MoveList { moves: Vec::new() }
    }

    pub fn push(&mut self, m: RawMove)
        ensures
            final(self)@ == old(self)@.push(m),
    {
        self.moves.push(m);
    }

    pub fn len(&self) -> (r: usize)
        ensures
            r == self@.len(),
    {
        self.moves.len()
    }

    pub fn is_empty(&self) -> (r: bool)
        ensures
            r == (self@.len() == 0),
    {
        self.moves.len() == 0
    }

    pub fn get(&self, i: usize) -> (r: RawMove)
        requires
            i < self@.len(),
        ensures
            r == self@[i as int],
    {
        self.moves[i]
    }

    /// Puts `m` in the place of the move at `i`.
    pub fn set(&mut self, i: usize, m: RawMove)
        requires
            i < old(self)@.len(),
        ensures
            final(self)@ == old(self)@.update(i as int, m),
    {
        self.moves[i] = m;
    }

    pub fn as_slice(&self) -> (r: &[RawMove])
        ensures
            r@ == self@,
    {
        self.moves.as_slice()
    }

    /// Whether the list holds `m`.
    pub fn contains(&self, m: RawMove) -> (r: bool)
        ensures
            r == self@.contains(m),
    {
        let mut i: usize = 0;
        while i < self.moves.len()
            invariant
                i <= self.moves@.len(),
                forall|k: int| 0 <= k < i ==> #[trigger] self.moves@[k] != m,
            decreases self.moves@.len() - i,
        {
            if self.moves[i] == m {
                return true;
            }
            i = i + 1;
        }
        false
    }
}

impl Default for MoveList {
    fn default() -> (r: Self)
        ensures
            r@.len() == 0,
    {
        MoveList::new()
    }
}

/// The kind of a move that is none of the others.
pub const NORMAL: u8 = 0;

/// The kind of a castling move.
pub const CASTLE: u8 = 1;

/// The kind of a capture en passant.
pub const EN_PASSANT: u8 = 2;

/// The kind of a promotion is this plus the code of the new piece.
pub const PROMOTION: u8 = 8;

/// A move is written as the square it leaves and the square it ends on, a letter from `a` and a
/// digit from `1` each; a pawn that turns into a piece is followed by the letter of the piece.
/// A king that castles is written to end on the g-file or the c-file of its rank.
pub proof fn law_moves_are_written_so(m: RawMove)
    ensures
        ({
            let s = m.uci_spec();
            &&& s.len() == if m.promotion_spec() is Some {
                5int
            } else {
                4
            }
            &&& s[0] as int == 'a' as int + m.from_sq() % 8
            &&& s[1] as int == '1' as int + m.from_sq() / 8
            &&& m.kind_spec() != CASTLE ==> s[2] as int == 'a' as int + m.to_sq() % 8 && s[3] as int
                == '1' as int + m.to_sq() / 8
            &&& m.kind_spec() == CASTLE ==> s[3] == s[1] && s[2] == if m.to_sq() > m.from_sq() {
                'g'
            } else {
                'c'
            }
            &&& m.promotion_spec() == Some(Role::Queen) ==> s[4] == 'q'
            &&& m.promotion_spec() == Some(Role::Rook) ==> s[4] == 'r'
            &&& m.promotion_spec() == Some(Role::Bishop) ==> s[4] == 'b'
            &&& m.promotion_spec() == Some(Role::Knight) ==> s[4] == 'n'
        }),
{
    reveal_strlit("a");
    reveal_strlit("b");
    reveal_strlit("c");
    reveal_strlit("d");
    reveal_strlit("e");
    reveal_strlit("f");
    reveal_strlit("g");
    reveal_strlit("h");
    reveal_strlit("1");
    reveal_strlit("2");
    reveal_strlit("3");
    reveal_strlit("4");
    reveal_strlit("5");
    reveal_strlit("6");
    reveal_strlit("7");
    reveal_strlit("8");
    reveal_strlit("n");
    reveal_strlit("r");
    reveal_strlit("q");
    assert forall|f: int| 0 <= f < 8 implies #[trigger] file_name(f).len() == 1 && file_name(
        f,
    )[0] as int == 'a' as int + f by {}
    assert forall|r: int| 0 <= r < 8 implies #[trigger] rank_name(r).len() == 1 && rank_name(
        r,
    )[0] as int == '1' as int + r by {}
    assert(0 <= m.from_sq() < 64 && 0 <= m.to_sq() < 64);
}

} // verus!
