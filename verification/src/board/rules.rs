//! The rules of chess, asked of `shakmaty`. A position is handed over as its
//! FEN and comes back as plain values.
use vstd::prelude::*;
use crate::bits;
use crate::board::placement::Placement;
use crate::nnue::balance;
use crate::nnue::board;
use crate::nnue::types::Color;
use crate::nnue::attacks;
use crate::nnue::geometry;
use crate::types::{RawMove, Role, CASTLE, EN_PASSANT};
use shakmaty::fen::Fen;
use shakmaty::san::SanPlus;
use shakmaty::uci::UciMove;
use shakmaty::zobrist::{Zobrist64, ZobristHash};
use shakmaty::{CastlingMode, Chess, EnPassantMode, PositionError, Square};

verus! {

/// What a position holds.
#[derive(Copy, Clone, Debug, PartialEq, Eq, Structural)]
pub struct Facts {
    pub board: Placement,
    pub turn: Color,
    /// The rooks that may still castle.
    pub castling: u64,
    /// The square that a pawn has just run past; 64 where there is none.
    pub ep: u8,
    pub halfmoves: u32,
    pub fullmoves: u32,
}

/// One legal move.
#[derive(Copy, Clone, Debug, PartialEq, Eq, Structural)]
pub struct Step {
    pub from: u8,
    pub to: u8,
    /// The code of the piece that a pawn turns into; 0 for any other move.
    pub promotion: u8,
    pub castle: bool,
    pub en_passant: bool,
}

impl Step {
    /// The squares are squares, and the move is of one kind.
    pub open spec fn wf(self) -> bool {
        &&& self.from < 64 && self.to < 64
        &&& self.promotion == 0 || 2 <= self.promotion <= 5
        &&& !(self.castle && self.en_passant)
        &&& (self.castle || self.en_passant) ==> self.promotion == 0
    }

    /// The kind of the move.
    pub open spec fn kind(self) -> int {
        if self.castle {
            CASTLE as int
        } else if self.en_passant {
            EN_PASSANT as int
        } else if self.promotion != 0 {
            8 + self.promotion
        } else {
            0
        }
    }

    /// The move in sixteen bits.
    pub open spec fn raw_spec(self) -> RawMove {
        RawMove::made(self.from as int, self.to as int, self.kind())
    }

    /// The move in sixteen bits.
    pub fn raw(self) -> (r: RawMove)
        requires
            self.wf(),
        ensures
            r == self.raw_spec(),
    {
        let kind: u8 = if self.castle {
            CASTLE
        } else if self.en_passant {
            EN_PASSANT
        } else if self.promotion != 0 {
            8 + self.promotion
        } else {
            0
        };
        RawMove::new(self.from as usize, self.to as usize, kind)
    }

    /// The step that a move in sixteen bits stands for.
    pub open spec fn of_spec(m: RawMove) -> Step {
        Step {
            from: m.from_sq() as u8,
            to: m.to_sq() as u8,
            promotion: if 10 <= m.kind_spec() <= 13 {
                (m.kind_spec() - 8) as u8
            } else {
                0
            },
            castle: m.kind_spec() == CASTLE,
            en_passant: m.kind_spec() == EN_PASSANT,
        }
    }

    /// The step that a move in sixteen bits stands for.
    pub fn of(m: RawMove) -> (r: Step)
        ensures
            r == Self::of_spec(m),
            r.wf(),
    {
        let k: u8 = m.kind();
        Step {
            from: m.from() as u8,
            to: m.to() as u8,
            promotion: if k >= 10 && k <= 13 {
                k - 8
            } else {
                0
            },
            castle: k == CASTLE,
            en_passant: k == EN_PASSANT,
        }
    }

    /// A step and its move in sixteen bits determine each other.
    pub proof fn lemma_raw(self)
        requires
            self.wf(),
        ensures
            Self::of_spec(self.raw_spec()) == self,
    {
        RawMove::lemma_made(self.from as int, self.to as int, self.kind());
    }
}

/// What the rules say of the pieces that a legal move moves: the move can be
/// played on the board, a quiet one runs over empty squares, and neither an own
/// piece nor a king is captured.
pub open spec fn step_fits(f: Facts, s: Step) -> bool {
    let m = s.raw_spec();
    &&& s.wf()
    &&& board::playable(f.board.sq(), m, f.turn)
    &&& balance::regular(f.board.sq(), m)
    &&& f.board.sq()[s.to as int] != 8 * f.turn.opposite().index() + 6
    &&& !s.castle && f.board.sq()[s.to as int] != 0 ==> f.board.sq()[s.to as int] as int / 8
        != f.turn.index()
}

/// A pawn moves or a piece is captured.
pub open spec fn zeroing(f: Facts, s: Step) -> bool {
    let sq = f.board.sq();
    sq[s.from as int] as int % 8 == 1 || (!s.castle && sq[s.to as int] != 0)
}

/// A counter of moves after one more.
pub open spec fn counted_on(n: u32) -> u32 {
    if n == u32::MAX {
        n
    } else {
        (n + 1) as u32
    }
}

/// The rook on `t` may still castle after a move: neither it nor its king has
/// moved, and it was not captured.
pub open spec fn keeps_castling(f: Facts, s: Step, t: int) -> bool {
    let king_moved = f.board.sq()[s.from as int] == 8 * f.turn.index() + 6;
    let home = if f.turn == Color::White {
        0int
    } else {
        7
    };
    bits::mem(f.castling, t) && t != s.from && t != s.to && !(king_moved && t / 8 == home)
}

/// The square that a move runs past: that between the ends of a pawn's double
/// step.
pub open spec fn run_past(f: Facts, s: Step) -> int {
    let pawn = f.board.sq()[s.from as int] as int % 8 == 1;
    if pawn && s.to - s.from == 16 && s.from / 8 == 1 {
        s.from + 8
    } else if pawn && s.from - s.to == 16 && s.from / 8 == 6 {
        s.from - 8
    } else {
        64
    }
}

/// The position after a move: the pieces have moved, the turn has passed, the
/// moves are counted, and what the move leaves of the castling rights and of the
/// en passant square is left.
pub open spec fn follows(f: Facts, s: Step, after: Option<Facts>) -> bool {
    &&& after is Some
    &&& (after->0).turn == f.turn.opposite()
    &&& (after->0).board.sq() == board::played(f.board.sq(), s.raw_spec(), f.turn)
    &&& (after->0).halfmoves == (if zeroing(f, s) {
        0
    } else {
        counted_on(f.halfmoves)
    })
    &&& (after->0).fullmoves == (if f.turn == Color::Black {
        counted_on(f.fullmoves)
    } else {
        f.fullmoves
    })
    &&& forall|t: int| #[trigger] bits::mem((after->0).castling, t) == keeps_castling(f, s, t)
    &&& (after->0).ep == run_past(f, s)
}

/// The position with the turn passed and no pawn to capture en passant.
pub open spec fn passed(f: Facts) -> Facts {
    Facts { turn: f.turn.opposite(), ep: 64, ..f }
}

/// Whether a text is a FEN.
pub uninterp spec fn is_fen(text: Seq<char>) -> bool;

/// Whether a text is the FEN of a position that can be played on.
pub uninterp spec fn is_legal_fen(text: Seq<char>) -> bool;

/// What the position with a FEN holds; nothing where it cannot be played on.
/// A check that no game could lead to is no obstacle here.
pub uninterp spec fn facts_of(text: Seq<char>) -> Option<Facts>;

/// The legal moves of the position with a FEN.
pub uninterp spec fn legal_steps(text: Seq<char>) -> Seq<Step>;

/// The FEN after a move.
pub uninterp spec fn text_after(text: Seq<char>, s: Step) -> Seq<char>;

/// The FEN after passing the turn; nothing where that is not possible.
pub uninterp spec fn text_swapped(text: Seq<char>) -> Option<Seq<char>>;

/// The FEN of the position with a FEN, the square that a pawn ran past written
/// only where it can be captured there.
pub uninterp spec fn canonical_fen(text: Seq<char>) -> Seq<char>;

/// The Zobrist hash of the position with a FEN.
pub uninterp spec fn hash_of(text: Seq<char>) -> u64;

/// The key of the position with a FEN in opening books.
pub uninterp spec fn book_key_of(text: Seq<char>) -> u64;

/// The piece on `s` attacks `t`.
pub open spec fn strikes(b: Placement, s: int, t: int) -> bool {
    if bits::mem(b.pawns, s) {
        geometry::pawn_step(
            if bits::mem(b.white, s) {
                0
            } else {
                1
            },
            s,
            t,
        )
    } else {
        attacks::attacks(b.role_code(s), s, t, b.white | b.black)
    }
}

/// An enemy piece attacks the king of the side to move.
pub open spec fn in_check(g: Facts) -> bool {
    exists|s: int|
        bits::mem(g.board.side(g.turn.opposite()), s) && #[trigger] strikes(
            g.board,
            s,
            g.board.king_sq(g.turn),
        )
}

/// A side has a piece of a kind.
pub open spec fn owns(b: Placement, c: Color, role: Role) -> bool {
    exists|s: int| #[trigger] bits::mem(b.side(c), s) && bits::mem(b.kind(role), s)
}

/// A side cannot win: it has at most one knight, against nothing but queens, or
/// only bishops of one shade, with nothing else on the board but bishops of that
/// shade, rooks and queens of the enemy.
pub open spec fn bare_side(b: Placement, c: Color) -> bool {
    if owns(b, c, Role::Pawn) || owns(b, c, Role::Rook) || owns(b, c, Role::Queen) {
        false
    } else if owns(b, c, Role::Knight) {
        bits::ones(b.side(c)) <= 2 && forall|s: int| #[trigger]
            bits::mem(b.side(c.opposite()), s) ==> bits::mem(b.kings, s) || bits::mem(b.queens, s)
    } else if owns(b, c, Role::Bishop) {
        b.knights == 0 && b.pawns == 0 && forall|s: int, t: int|
            #![trigger bits::mem(b.bishops, s), bits::mem(b.bishops, t)]
            bits::mem(b.bishops, s) && bits::mem(b.bishops, t) ==> (s % 8 + s / 8) % 2 == (t % 8 + t
                / 8) % 2
    } else {
        true
    }
}

/// Neither side has enough material to win.
pub open spec fn bare(b: Placement) -> bool {
    bare_side(b, Color::White) && bare_side(b, Color::Black)
}

/// Whether a text is a move as UCI writes it.
pub uninterp spec fn is_uci(uci: Seq<char>) -> bool;

/// The legal move of a position that a UCI text stands for.
pub uninterp spec fn uci_step_of(text: Seq<char>, uci: Seq<char>) -> Option<Step>;

/// A legal move of the position with a FEN, in standard algebraic notation.
pub uninterp spec fn san_text(text: Seq<char>, s: Step) -> Seq<char>;

/// The pieces of the starting position.
pub open spec fn start_board() -> Placement {
    Placement {
        pawns: 0x00ff_0000_0000_ff00,
        knights: 0x4200_0000_0000_0042,
        bishops: 0x2400_0000_0000_0024,
        rooks: 0x8100_0000_0000_0081,
        queens: 0x0800_0000_0000_0008,
        kings: 0x1000_0000_0000_0010,
        white: 0x0000_0000_0000_ffff,
        black: 0xffff_0000_0000_0000,
    }
}

/// What the starting position holds.
pub open spec fn start_facts() -> Facts {
    Facts {
        board: start_board(),
        turn: Color::White,
        castling: 0x8100_0000_0000_0081,
        ep: 64,
        halfmoves: 0,
        fullmoves: 1,
    }
}

/// Calls `Chess::default` and writes it as a FEN: the starting position.
#[verifier::external_body]
pub(crate) fn start() -> (r: String)
    ensures
        r@ == "rnbqkbnr/pppppppp/8/8/8/8/PPPPPPPP/RNBQKBNR w KQkq - 0 1"@,
        facts_of(r@) == Some(start_facts()),
{
    Fen::from_position(&Chess::default(), EnPassantMode::Always).to_string()
}

/// Calls `Fen::from_str`: whether the text parses depends on the text alone.
#[verifier::external_body]
pub(crate) fn fen_reads(text: &str) -> (r: bool)
    ensures
        r == is_fen(text@),
{
    text.parse::<Fen>().is_ok()
}

/// Calls `Fen::into_position`, with standard castling: whether the position is
/// accepted depends on the text alone. What is accepted holds facts.
#[verifier::external_body]
pub(crate) fn fen_settles(text: &str) -> (r: bool)
    ensures
        r == is_legal_fen(text@),
        r ==> is_fen(text@) && facts_of(text@) is Some,
{
    match text.parse::<Fen>() {
        Ok(fen) => fen.into_position::<Chess>(CastlingMode::Standard).is_ok(),
        Err(_) => false,
    }
}

/// What a position holds, as `shakmaty` tells it.
pub(crate) struct Setup {
    /// Pawns, knights, bishops, rooks, queens and kings.
    pub(crate) roles: [u64; 6],
    /// White and Black.
    pub(crate) colors: [u64; 2],
    pub(crate) white: bool,
    pub(crate) castling: u64,
    pub(crate) ep: u8,
    pub(crate) moves: (u32, u32),
}

impl Setup {
    /// What the position holds.
    pub(crate) open spec fn told(self) -> Facts {
        Facts {
            board: Placement {
                pawns: self.roles@[0],
                knights: self.roles@[1],
                bishops: self.roles@[2],
                rooks: self.roles@[3],
                queens: self.roles@[4],
                kings: self.roles@[5],
                white: self.colors@[0],
                black: self.colors@[1],
            },
            turn: if self.white {
                Color::White
            } else {
                Color::Black
            },
            castling: self.castling,
            ep: self.ep,
            halfmoves: self.moves.0,
            fullmoves: self.moves.1,
        }
    }
}

/// Calls `Position::to_setup` on the position with a FEN, any en passant square
/// kept: what it holds depends on the text alone. The position was accepted, so
/// that its pieces are consistent, each side has one king and at most sixteen
/// pieces and no pawn stands on the first or the last rank; an en passant square
/// is a square.
#[verifier::external_body]
fn setup(text: &str) -> (r: Option<Setup>)
    ensures
        r is Some == facts_of(text@) is Some,
        r matches Some(s) ==> facts_of(text@) == Some(s.told()) && s.told().board.wf() && s.ep <= 64,
{
    let pos = text.parse::<Fen>().ok()?.into_position::<Chess>(CastlingMode::Standard);
    let pos = pos.or_else(PositionError::ignore_impossible_check).ok()?;
    let s = shakmaty::Position::to_setup(&pos, EnPassantMode::Always);
    let roles = shakmaty::Role::ALL.map(|role| s.board.by_role(role).0);
    let colors = [s.board.white().0, s.board.black().0];
    let ep = s.ep_square.map_or(64, u8::from);
    let moves = (s.halfmoves, s.fullmoves.get());
    let castling = s.castling_rights.0;
    Some(Setup { roles, colors, white: s.turn.is_white(), castling, ep, moves })
}

/// What the position with a FEN holds; nothing where it is no position.
pub(crate) fn facts(text: &str) -> (r: Option<Facts>)
    ensures
        r == facts_of(text@),
        r matches Some(f) ==> f.board.wf() && f.ep <= 64,
{
    match setup(text) {
        None => None,
        Some(s) => {
            let board: Placement = Placement {
                pawns: s.roles[0],
                knights: s.roles[1],
                bishops: s.roles[2],
                rooks: s.roles[3],
                queens: s.roles[4],
                kings: s.roles[5],
                white: s.colors[0],
                black: s.colors[1],
            };
            let turn: Color = if s.white {
                Color::White
            } else {
                Color::Black
            };
            Some(
                Facts {
                    board,
                    turn,
                    castling: s.castling,
                    ep: s.ep,
                    halfmoves: s.moves.0,
                    fullmoves: s.moves.1,
                },
            )
        },
    }
}

/// Calls `Position::legal_moves` on the position with a FEN: the moves and
/// their order depend on the text alone. The list of `shakmaty` holds at most
/// 270 of them, and each obeys the rules as `step_fits` says.
#[verifier::external_body]
pub(crate) fn legal(text: &str) -> (r: Vec<Step>)
    requires
        facts_of(text@) is Some,
    ensures
        r@ == legal_steps(text@),
        r@.len() <= 270,
        forall|i: int| 0 <= i < r@.len() ==> step_fits(facts_of(text@)->0, #[trigger] r@[i]),
{
    let pos = text.parse::<Fen>().unwrap().into_position::<Chess>(CastlingMode::Standard);
    let pos = pos.or_else(PositionError::ignore_impossible_check).unwrap();
    let step = |m: &shakmaty::Move| Step { from: u8::from(m.from().unwrap()), to: u8::from(m.to()),
        promotion: m.promotion().map_or(0, u8::from), castle: m.is_castle(),
        en_passant: m.is_en_passant() };
    shakmaty::Position::legal_moves(&pos).iter().map(step).collect()
}

/// Calls `Position::play_unchecked` with a legal move: the FEN after it, any en
/// passant square kept, depends on the text and the move alone. The position
/// after it can be played on, the pieces have moved, the turn has passed and the
/// counters, the castling rights and the en passant square are those that the
/// rules give.
#[verifier::external_body]
pub(crate) fn play(text: &str, s: Step) -> (r: String)
    requires
        facts_of(text@) is Some,
        legal_steps(text@).contains(s),
    ensures
        r@ == text_after(text@, s),
        follows(facts_of(text@)->0, s, facts_of(r@)),
{
    let pos = text.parse::<Fen>().unwrap().into_position::<Chess>(CastlingMode::Standard);
    let mut pos = pos.or_else(PositionError::ignore_impossible_check).unwrap();
    let promotion = shakmaty::Role::try_from(s.promotion).ok();
    let (from, to) = (Square::new(s.from.into()), Square::new(s.to.into()));
    let m = UciMove::Normal { from, to, promotion }.to_move(&pos).unwrap();
    shakmaty::Position::play_unchecked(&mut pos, m);
    Fen::from_position(&pos, EnPassantMode::Always).to_string()
}

/// Calls `Position::swap_turn`: whether the turn can pass, and the FEN after
/// it, depend on the text alone. Only the turn and the en passant square
/// change.
#[verifier::external_body]
pub(crate) fn swap(text: &str) -> (r: Option<String>)
    requires
        facts_of(text@) is Some,
    ensures
        r is Some == text_swapped(text@) is Some,
        r matches Some(t) ==> text_swapped(text@) == Some(t@) && facts_of(t@) == Some(
            passed(facts_of(text@)->0),
        ),
{
    let pos = text.parse::<Fen>().ok()?.into_position::<Chess>(CastlingMode::Standard);
    let pos = pos.or_else(PositionError::ignore_impossible_check).ok()?;
    let pos = shakmaty::Position::swap_turn(pos).ok()?;
    Some(Fen::from_position(&pos, EnPassantMode::Always).to_string())
}

/// The same position, its en passant square kept or dropped.
pub open spec fn same_but_ep(f: Facts, g: Option<Facts>) -> bool {
    &&& g is Some
    &&& g->0 == (Facts { ep: (g->0).ep, ..f })
    &&& (g->0).ep == f.ep || (g->0).ep == 64
}

/// Calls `Fen::from_position`, an en passant square kept only where the capture
/// is legal: the text depends on the position's text alone, and stands for the
/// same position.
#[verifier::external_body]
pub(crate) fn written(text: &str) -> (r: String)
    requires
        facts_of(text@) is Some,
    ensures
        r@ == canonical_fen(text@),
        same_but_ep(facts_of(text@)->0, facts_of(r@)),
{
    let pos = text.parse::<Fen>().unwrap().into_position::<Chess>(CastlingMode::Standard);
    let pos = pos.or_else(PositionError::ignore_impossible_check).unwrap();
    Fen::from_position(&pos, EnPassantMode::Legal).to_string()
}

/// Calls `ZobristHash::zobrist_hash`, an en passant square counted only where
/// the capture is legal: the hash depends on the text alone.
#[verifier::external_body]
pub(crate) fn zobrist(text: &str) -> (r: u64)
    requires
        facts_of(text@) is Some,
    ensures
        r == hash_of(text@),
{
    let pos = text.parse::<Fen>().unwrap().into_position::<Chess>(CastlingMode::Standard);
    let pos = pos.or_else(PositionError::ignore_impossible_check).unwrap();
    pos.zobrist_hash::<Zobrist64>(EnPassantMode::Legal).0
}

/// Calls `ZobristHash::zobrist_hash`, an en passant square counted where a pawn
/// stands next to the one that has run past it: the key of opening books, which
/// depends on the text alone.
#[verifier::external_body]
pub(crate) fn book_key(text: &str) -> (r: u64)
    requires
        facts_of(text@) is Some,
    ensures
        r == book_key_of(text@),
{
    let pos = text.parse::<Fen>().unwrap().into_position::<Chess>(CastlingMode::Standard);
    let pos = pos.or_else(PositionError::ignore_impossible_check).unwrap();
    pos.zobrist_hash::<Zobrist64>(EnPassantMode::PseudoLegal).0
}

/// Calls `Position::is_check`: whether an enemy piece attacks the king of the
/// side to move.
#[verifier::external_body]
pub(crate) fn check(text: &str) -> (r: bool)
    requires
        facts_of(text@) is Some,
    ensures
        r == in_check(facts_of(text@)->0),
{
    let pos = text.parse::<Fen>().unwrap().into_position::<Chess>(CastlingMode::Standard);
    let pos = pos.or_else(PositionError::ignore_impossible_check).unwrap();
    shakmaty::Position::is_check(&pos)
}

/// Calls `Position::is_checkmate`: a mate is a check without a legal move.
#[verifier::external_body]
pub(crate) fn mate(text: &str) -> (r: bool)
    requires
        facts_of(text@) is Some,
    ensures
        r == (in_check(facts_of(text@)->0) && legal_steps(text@).len() == 0),
{
    let pos = text.parse::<Fen>().unwrap().into_position::<Chess>(CastlingMode::Standard);
    let pos = pos.or_else(PositionError::ignore_impossible_check).unwrap();
    shakmaty::Position::is_checkmate(&pos)
}

/// Calls `Position::is_insufficient_material`: whether neither side has enough
/// material to win.
#[verifier::external_body]
pub(crate) fn insufficient(text: &str) -> (r: bool)
    requires
        facts_of(text@) is Some,
    ensures
        r == bare((facts_of(text@)->0).board),
{
    let pos = text.parse::<Fen>().unwrap().into_position::<Chess>(CastlingMode::Standard);
    let pos = pos.or_else(PositionError::ignore_impossible_check).unwrap();
    shakmaty::Position::is_insufficient_material(&pos)
}

/// Calls `UciMove::from_str`: whether the text parses depends on it alone.
#[verifier::external_body]
pub(crate) fn uci_reads(uci: &str) -> (r: bool)
    ensures
        r == is_uci(uci@),
{
    uci.parse::<UciMove>().is_ok()
}

/// A text is how UCI writes a legal move.
pub open spec fn writes(text: Seq<char>, s: Step, uci: Seq<char>) -> bool {
    legal_steps(text).contains(s) && uci == s.raw_spec().uci_spec()
}

/// Calls `UciMove::to_move`: the answer depends on the two texts alone, and is
/// a legal move of the position. What is written for a legal move is read as that
/// move.
#[verifier::external_body]
pub(crate) fn uci_step(text: &str, uci: &str) -> (r: Option<Step>)
    requires
        facts_of(text@) is Some,
    ensures
        r == uci_step_of(text@, uci@),
        r matches Some(s) ==> legal_steps(text@).contains(s) && is_uci(uci@) && step_fits(
            facts_of(text@)->0,
            s,
        ),
        forall|s: Step| #[trigger] writes(text@, s, uci@) ==> r == Some(s),
{
    let pos = text.parse::<Fen>().unwrap().into_position::<Chess>(CastlingMode::Standard);
    let pos = pos.or_else(PositionError::ignore_impossible_check).unwrap();
    let m = uci.parse::<UciMove>().ok()?.to_move(&pos).ok()?;
    Some(Step { from: u8::from(m.from().unwrap()), to: u8::from(m.to()),
        promotion: m.promotion().map_or(0, u8::from), castle: m.is_castle(),
        en_passant: m.is_en_passant() })
}

/// Calls `SanPlus::from_move` with a legal move: the notation, with the sign for
/// check or mate, depends on the text and the move alone.
#[verifier::external_body]
pub(crate) fn san(text: &str, s: Step) -> (r: String)
    requires
        facts_of(text@) is Some,
        legal_steps(text@).contains(s),
    ensures
        r@ == san_text(text@, s),
{
    let pos = text.parse::<Fen>().unwrap().into_position::<Chess>(CastlingMode::Standard);
    let pos = pos.or_else(PositionError::ignore_impossible_check).unwrap();
    let promotion = shakmaty::Role::try_from(s.promotion).ok();
    let (from, to) = (Square::new(s.from.into()), Square::new(s.to.into()));
    let m = UciMove::Normal { from, to, promotion }.to_move(&pos).unwrap();
    SanPlus::from_move(pos, m).to_string()
}

} // verus!
