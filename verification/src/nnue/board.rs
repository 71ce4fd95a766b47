//! A compact board and the attacks that each change of it makes or ends.
//!
//! A board is rebuilt from a position where it is needed; a move yields the
//! next board together with the records that an accumulator replays. Every
//! change of the board reports the attacks that it made or ended.
use vstd::prelude::*;
use crate::bits;
use crate::board::{Placement, Position};
use crate::nnue::attacks::{
    both_attacks_bb, knight_attacks, pawn_attacks, pop_lsb, pseudo_attacks, ray_pass_bb, square_bb,
};
use crate::nnue::attacks;
use crate::nnue::geometry;
use crate::nnue::types::{
    color_of, make_piece, type_of, Bitboard, Color, DirtyPawnPairs, DirtyPiece, DirtyThreat,
    DirtyThreats, BISHOP, KING, KNIGHT, NO_PIECE, PAWN, QUEEN, ROOK, SQ_NONE,
};
use crate::nnue::types;
use crate::types::{RawMove, CASTLE, EN_PASSANT};

verus! {

/// The squares of a board whose piece satisfies `p`.
pub open spec fn where_piece(sq: Seq<u8>, p: spec_fn(u8) -> bool) -> Set<int> {
    Set::new(|s: int| 0 <= s < 64 && p(sq[s]))
}

/// How many squares of a board hold a piece that satisfies `p`.
pub open spec fn tally(sq: Seq<u8>, p: spec_fn(u8) -> bool) -> nat {
    where_piece(sq, p).len()
}

/// Every square is empty or holds a piece.
pub open spec fn valid_squares(sq: Seq<u8>) -> bool {
    sq.len() == 64 && forall|s: int| 0 <= s < 64 ==> #[trigger] sq[s] == 0 || types::is_piece(
        sq[s] as int,
    )
}

/// A count of squares stays in range, and changes with one square.
pub proof fn lemma_tally(sq: Seq<u8>, p: spec_fn(u8) -> bool, s: int, v: u8)
    requires
        sq.len() == 64,
        0 <= s < 64,
    ensures
        where_piece(sq, p).finite(),
        tally(sq, p) <= 64,
        tally(sq.update(s, v), p) == tally(sq, p) + (if p(v) {
            1int
        } else {
            0
        }) - (if p(sq[s]) {
            1int
        } else {
            0
        }),
        p(sq[s]) ==> tally(sq, p) >= 1,
{
    let all = vstd::set_lib::set_int_range(0, 64);
    vstd::set_lib::lemma_int_range(0, 64);
    let before = where_piece(sq, p);
    let after = where_piece(sq.update(s, v), p);
    assert(before.subset_of(all) && after.subset_of(all));
    vstd::set_lib::lemma_len_subset(before, all);
    vstd::set_lib::lemma_len_subset(after, all);
    assert(before.remove(s) =~= after.remove(s));
    assert(before.remove(s).len() == after.remove(s).len());
    if !before.contains(s) {
        assert(before.remove(s) =~= before);
    }
    if !after.contains(s) {
        assert(after.remove(s) =~= after);
    }
}

/// A queen is attacked along a line only by a queen.
fn can_slider_threat(pc: u8, slider: u8) -> (r: bool)
    ensures
        r == (pc % 8 != QUEEN || slider % 8 == QUEEN),
{
    type_of(pc) != QUEEN || type_of(slider) == QUEEN
}

/// A compact board.
#[derive(Clone, Copy, Debug, PartialEq, Eq)]
pub struct Board {
    /// Piece code per square, `NO_PIECE` where empty.
    pub squares: [u8; 64],
    /// The occupied squares, then the squares of each piece type.
    by_type: [Bitboard; 7],
    by_color: [Bitboard; 2],
    /// Counts per piece code; at 0 and 8 the totals per colour.
    piece_count: [u32; 16],
}

/// What the count at index `pc` counts.
pub open spec fn counted(pc: int, v: u8) -> bool {
    if pc % 8 == 0 {
        v != 0 && v as int / 8 == pc / 8
    } else {
        v == pc
    }
}

/// The number of squares that the count at index `pc` counts.
pub open spec fn count_at(sq: Seq<u8>, pc: int) -> nat {
    tally(sq, |v: u8| counted(pc, v))
}

/// Everything that one move changes.
#[derive(Debug)]
pub struct MoveDirties {
    /// The board after the move.
    pub board: Board,
    pub dirty_piece: DirtyPiece,
    pub dirty_threats: DirtyThreats,
    pub dirty_pawn_pairs: DirtyPawnPairs,
}

// --- attacks between pieces ---------------------------------------------------

/// A piece of type `pt` may be recorded as attacking a piece of type `tt`:
/// pawns attack knights and rooks, bishops and rooks everything but queens,
/// knights and queens everything; kings neither attack nor are attacked.
pub open spec fn may_threaten(pt: int, tt: int) -> bool {
    if pt == PAWN {
        tt == KNIGHT || tt == ROOK
    } else if pt == BISHOP || pt == ROOK {
        1 <= tt <= 4
    } else if pt == KNIGHT || pt == QUEEN {
        1 <= tt <= 5
    } else {
        false
    }
}

/// No piece stands strictly between `a` and `b`.
pub open spec fn open_line(sq: Seq<u8>, a: int, b: int) -> bool {
    forall|x: int| #[trigger] geometry::between(a, x, b) ==> sq[x] == 0
}

/// The piece `pc` on `a` reaches `b` past the pieces of `sq`.
pub open spec fn hits(sq: Seq<u8>, pc: int, a: int, b: int) -> bool {
    let pt = pc % 8;
    if pt == PAWN {
        geometry::pawn_step(pc / 8, a, b)
    } else if pt == KNIGHT {
        geometry::knight_step(a, b)
    } else if pt == BISHOP {
        geometry::diagonal(a, b) && open_line(sq, a, b)
    } else if pt == ROOK {
        geometry::straight(a, b) && open_line(sq, a, b)
    } else if pt == QUEEN {
        (geometry::diagonal(a, b) || geometry::straight(a, b)) && open_line(sq, a, b)
    } else {
        false
    }
}

/// The piece on `a` attacks the piece on `b`, as the attack records count it.
pub open spec fn threatens(sq: Seq<u8>, a: int, b: int) -> bool {
    &&& geometry::on_board(a)
    &&& geometry::on_board(b)
    &&& may_threaten(sq[a] as int % 8, sq[b] as int % 8)
    &&& hits(sq, sq[a] as int, a, b)
}

/// The slider on `q` looks at `s`.
pub open spec fn slider_on(sq: Seq<u8>, q: int, s: int) -> bool {
    geometry::on_board(q) && 3 <= sq[q] as int % 8 <= 5 && hits(sq, sq[q] as int, q, s)
}

/// The attack of the slider on `q` on the piece on `d` runs over `s`, not
/// along the squares of `mask`, and is blocked by nothing but `s`.
pub open spec fn runs_over(sq: Seq<u8>, q: int, s: int, d: int, mask: u64) -> bool {
    &&& geometry::between(q, s, d)
    &&& open_line(sq, s, d)
    &&& sq[d] != 0
    &&& may_threaten(sq[q] as int % 8, sq[d] as int % 8)
    &&& !within_line(q, s, mask)
}

/// All squares of `mask` lie on the line from `q` through `s`.
pub open spec fn within_line(q: int, s: int, mask: u64) -> bool {
    forall|x: int| #[trigger] bits::mem(mask, x) ==> attacks::on_line_through(q, s, x)
}

/// The word `w` holds the squares with property `p`.
pub open spec fn word_has(w: u64, p: spec_fn(int) -> bool) -> bool {
    forall|s: int| 0 <= s < 64 ==> #[trigger] bits::mem(w, s) == p(s)
}

/// The word that holds the squares with property `p`.
pub open spec fn word_of(p: spec_fn(int) -> bool) -> u64 {
    choose|w: u64| #[trigger] word_has(w, p)
}

/// A word with the squares of `p` is the word of `p`.
pub proof fn lemma_word_of(w: u64, p: spec_fn(int) -> bool)
    requires
        word_has(w, p),
    ensures
        word_of(p) == w,
        forall|s: int| #[trigger] bits::mem(word_of(p), s) == (0 <= s < 64 && p(s)),
{
    bits::lemma_ext(word_of(p), w);
}

/// Every property has its word.
pub proof fn lemma_word_exists(p: spec_fn(int) -> bool)
    ensures
        word_has(word_of(p), p),
        forall|s: int| #[trigger] bits::mem(word_of(p), s) == (0 <= s < 64 && p(s)),
{
    let w = lemma_word_built(p, 64);
    assert(word_has(w, p));
}

proof fn lemma_word_built(p: spec_fn(int) -> bool, n: int) -> (w: u64)
    requires
        0 <= n <= 64,
    ensures
        forall|s: int| #[trigger] bits::mem(w, s) == (0 <= s < n && p(s)),
    decreases n,
{
    broadcast use bits::group_mem;

    if n == 0 {
        0
    } else {
        let v = lemma_word_built(p, n - 1);
        if p(n - 1) {
            let w = v | (1u64 << ((n - 1) as u64));
            assert forall|s: int| #[trigger] bits::mem(w, s) == (0 <= s < n && p(s)) by {
                bits::mem_or(v, 1u64 << ((n - 1) as u64), s);
                bits::mem_bit((n - 1) as u64, s);
            }
            w
        } else {
            v
        }
    }
}

/// The record of an attack between two squares.
pub open spec fn record(pc: int, target: int, a: int, b: int, made: bool) -> DirtyThreat {
    DirtyThreat::packed(
        types::Threat { pc, threatened_pc: target, pc_sq: a, threatened_sq: b },
        made,
    )
}

/// The record of the attack that the slider on `q` makes or loses over `s`.
pub open spec fn uncovered(sq: Seq<u8>, q: int, s: int, put: bool, mask: u64) -> Seq<DirtyThreat> {
    if exists|d: int| runs_over(sq, q, s, d, mask) {
        let d = choose|d: int| runs_over(sq, q, s, d, mask);
        seq![record(sq[q] as int, sq[d] as int, q, d, !put)]
    } else {
        Seq::empty()
    }
}

/// The squares of the sliders that look at `s`.
pub open spec fn sliders_to(sq: Seq<u8>, s: int) -> spec_fn(int) -> bool {
    |q: int| slider_on(sq, q, s)
}

/// The records of one slider that looks at `s`.
pub open spec fn slider_rec(
    sq: Seq<u8>,
    pc: int,
    put: bool,
    s: int,
    mask: u64,
    direct: bool,
) -> spec_fn(int) -> Seq<DirtyThreat> {
    |q: int|
        uncovered(sq, q, s, put, mask) + (if direct && may_threaten(sq[q] as int % 8, pc % 8) {
            seq![record(sq[q] as int, pc, q, s, put)]
        } else {
            Seq::empty()
        })
}

/// The records that the sliders looking at `s` give rise to.
pub open spec fn slider_records(
    sq: Seq<u8>,
    pc: int,
    put: bool,
    s: int,
    mask: u64,
    direct: bool,
) -> Seq<DirtyThreat> {
    bits::flat(word_of(sliders_to(sq, s)), slider_rec(sq, pc, put, s, mask, direct))
}

/// The piece `pc` on `s` attacks the piece on `t`.
pub open spec fn attacks_at(sq: Seq<u8>, pc: int, s: int) -> spec_fn(int) -> bool {
    |t: int|
        geometry::on_board(t) && may_threaten(pc % 8, sq[t] as int % 8) && hits(sq, pc, s, t)
}

/// The piece on `q` attacks the piece `pc` on `s`; sliders are left out where
/// `no_sliders` says so.
pub open spec fn attacked_from(
    sq: Seq<u8>,
    pc: int,
    s: int,
    no_sliders: bool,
) -> spec_fn(int) -> bool {
    |q: int|
        geometry::on_board(q) && may_threaten(sq[q] as int % 8, pc % 8) && hits(
            sq,
            sq[q] as int,
            q,
            s,
        ) && !(no_sliders && 3 <= sq[q] as int % 8 <= 5)
}

pub open spec fn outgoing_rec(sq: Seq<u8>, pc: int, put: bool, s: int) -> spec_fn(int) -> Seq<
    DirtyThreat,
> {
    |t: int| seq![record(pc, sq[t] as int, s, t, put)]
}

pub open spec fn incoming_rec(sq: Seq<u8>, pc: int, put: bool, s: int) -> spec_fn(int) -> Seq<
    DirtyThreat,
> {
    |q: int| seq![record(sq[q] as int, pc, q, s, put)]
}

/// The records of the piece `pc` coming to the square `s`, or leaving it, on a
/// board `sq` on which `s` is empty. Without `ray` the lines over `s` count as
/// unchanged; with it, those that hold all of `mask` do.
pub open spec fn emitted(
    sq: Seq<u8>,
    pc: int,
    put: bool,
    s: int,
    ray: bool,
    mask: u64,
) -> Seq<DirtyThreat> {
    if pc % 8 == KING {
        if ray {
            slider_records(sq, pc, put, s, mask, false)
        } else {
            Seq::empty()
        }
    } else {
        bits::flat(word_of(attacks_at(sq, pc, s)), outgoing_rec(sq, pc, put, s)) + (if ray {
            slider_records(sq, pc, put, s, mask, true)
        } else {
            Seq::empty()
        }) + bits::flat(word_of(attacked_from(sq, pc, s, ray)), incoming_rec(sq, pc, put, s))
    }
}

/// The first piece beyond `s`, as seen from `q`, is unique.
pub proof fn lemma_first_beyond(sq: Seq<u8>, q: int, s: int, d: int, e: int)
    requires
        geometry::between(q, s, d),
        geometry::between(q, s, e),
        open_line(sq, s, d),
        open_line(sq, s, e),
        sq[d] != 0,
        sq[e] != 0,
    ensures
        d == e,
{
    if d != e {
        geometry::lemma_beyond(q, s, d, e);
        if geometry::between(s, d, e) {
            assert(sq[d] == 0);
        } else {
            assert(sq[e] == 0);
        }
    }
}

/// A mask lies within a line exactly where intersecting loses nothing.
proof fn lemma_within(q: int, s: int, line: u64, mask: u64)
    requires
        forall|t: int| #[trigger] bits::mem(line, t) == attacks::on_line_through(q, s, t),
    ensures
        (line & mask == mask) == within_line(q, s, mask),
{
    if within_line(q, s, mask) {
        assert forall|x: int| 0 <= x < 64 implies bits::mem(line & mask, x) == bits::mem(
            mask,
            x,
        ) by {
            bits::mem_and(line, mask, x);
        }
        bits::lemma_ext(line & mask, mask);
    }
    if line & mask == mask {
        assert forall|x: int| #[trigger] bits::mem(mask, x) implies attacks::on_line_through(
            q,
            s,
            x,
        ) by {
            bits::mem_and(line, mask, x);
        }
    }
}

/// Lines from a square do not depend on what stands on it.
pub proof fn lemma_lines_without(sq: Seq<u8>, s: int, v: u8, a: int, b: int)
    requires
        sq.len() == 64,
        0 <= s < 64,
        a == s || b == s,
    ensures
        open_line(sq.update(s, v), a, b) == open_line(sq, a, b),
        forall|pc: int| #[trigger] hits(sq.update(s, v), pc, a, b) == hits(sq, pc, a, b),
{
    assert forall|x: int| #[trigger] geometry::between(a, x, b) implies sq.update(s, v)[x]
        == sq[x] by {
        geometry::lemma_between_aligned(a, x, b);
    }
}

/// An open line is open from either end.
pub proof fn lemma_open_line_sym(sq: Seq<u8>, a: int, b: int)
    ensures
        open_line(sq, a, b) == open_line(sq, b, a),
{
    assert forall|x: int| #[trigger] geometry::between(a, x, b) == geometry::between(b, x, a) by {
        geometry::lemma_between_sym(a, x, b);
    }
    assert forall|x: int| geometry::between(a, x, b) == #[trigger] geometry::between(b, x, a) by {
        geometry::lemma_between_sym(a, x, b);
    }
}

/// An occupancy word and the squares agree on which lines are open.
pub proof fn lemma_open_line_word(sq: Seq<u8>, occ: u64, a: int, b: int)
    requires
        sq.len() == 64,
        forall|x: int| #[trigger] bits::mem(occ, x) == (0 <= x < 64 && sq[x] != 0),
    ensures
        geometry::clear(a, b, occ) == open_line(sq, a, b),
{
    if geometry::clear(a, b, occ) {
        assert forall|x: int| #[trigger] geometry::between(a, x, b) implies sq[x] == 0 by {
            assert(!bits::mem(occ, x));
        }
    }
    if open_line(sq, a, b) {
        assert forall|x: int| #[trigger] geometry::between(a, x, b) implies !bits::mem(occ, x) by {
            assert(sq[x] == 0);
        }
    }
}

impl Board {
    /// The pieces by square.
    pub closed spec fn sq(self) -> Seq<u8> {
        self.squares@
    }

    /// The sets and the counts agree with the squares.
    pub closed spec fn wf(self) -> bool {
        &&& valid_squares(self.squares@)
        &&& forall|k: int, s: int|
            0 <= k < 7 && 0 <= s < 64 ==> #[trigger] bits::mem(self.by_type@[k], s) == (
            self.squares@[s] != 0 && (k == 0 || self.squares@[s] as int % 8 == k))
        &&& forall|c: int, s: int|
            0 <= c < 2 && 0 <= s < 64 ==> #[trigger] bits::mem(self.by_color@[c], s) == (
            self.squares@[s] != 0 && self.squares@[s] as int / 8 == c)
        &&& forall|pc: int|
            0 <= pc < 16 ==> #[trigger] self.piece_count@[pc] == count_at(self.squares@, pc)
    }

    /// A well-formed board holds nothing but pieces.
    pub proof fn lemma_valid(self)
        requires
            self.wf(),
        ensures
            valid_squares(self.sq()),
    {
    }

    /// The board without pieces.
    pub fn empty() -> (r: Board)
        ensures
            r.wf(),
            r.sq() == Seq::new(64, |i: int| 0u8),
    {
        broadcast use bits::group_mem;

        let r = Board {
            squares: [0u8; 64],
            by_type: [0u64; 7],
            by_color: [0u64; 2],
            piece_count: [0u32; 16],
        };
        proof {
            assert(r.squares@ =~= Seq::new(64, |i: int| 0u8));
            assert forall|pc: int| 0 <= pc < 16 implies #[trigger] r.piece_count@[pc] == count_at(
                r.squares@,
                pc,
            ) by {
                assert(where_piece(r.squares@, |v: u8| counted(pc, v)) =~= Set::empty());
            }
        }
        r
    }

    /// The board with the pieces of a position.
    pub fn from_placement(p: &Placement) -> (r: Board)
        ensures
            r.wf(),
            r.sq() == p.sq(),
    {
        let mut r: Board = Board::empty();
        let mut s: usize = 0;
        while s < 64
            invariant
                s <= 64,
                r.wf(),
                r.sq().len() == 64,
                forall|t: int| 0 <= t < s ==> #[trigger] r.sq()[t] == p.sq()[t],
                forall|t: int| s <= t < 64 ==> #[trigger] r.sq()[t] == 0,
            decreases 64 - s,
        {
            let pc: u8 = p.code_at(s);
            if pc != NO_PIECE {
                r.put_piece_quiet(pc, s);
            }
            s = s + 1;
        }
        assert(r.sq() =~= p.sq());
        r
    }

    /// The board of a position.
    pub fn from_position(pos: &Position) -> (r: Board)
        ensures
            r.wf(),
            r.sq() == pos.board_spec().sq(),
    {
        Board::from_placement(pos.board())
    }

    pub fn piece_on(&self, s: usize) -> (r: u8)
        requires
            s < 64,
        ensures
            r == self.sq()[s as int],
    {
        self.squares[s]
    }

    /// The occupied squares.
    pub fn pieces(&self) -> (r: Bitboard)
        requires
            self.wf(),
        ensures
            forall|s: int| #[trigger] bits::mem(r, s) == (0 <= s < 64 && self.sq()[s] != 0),
    {
        self.by_type[0]
    }

    /// The squares of a piece type, or for 0 the occupied squares.
    pub fn pieces_of(&self, pt: u8) -> (r: Bitboard)
        requires
            self.wf(),
            pt < 7,
        ensures
            forall|s: int| #[trigger]
                bits::mem(r, s) == (0 <= s < 64 && self.sq()[s] != 0 && (pt == 0
                    || self.sq()[s] as int % 8 == pt)),
    {
        self.by_type[pt as usize]
    }

    /// The squares of two piece types.
    pub fn pieces_of_many(&self, a: u8, b: u8) -> (r: Bitboard)
        requires
            self.wf(),
            0 < a < 7,
            0 < b < 7,
        ensures
            forall|s: int| #[trigger]
                bits::mem(r, s) == (0 <= s < 64 && self.sq()[s] != 0 && (self.sq()[s] as int % 8
                    == a || self.sq()[s] as int % 8 == b)),
    {
        broadcast use bits::group_mem;

        self.pieces_of(a) | self.pieces_of(b)
    }

    /// The squares of three piece types.
    pub fn pieces_of_three(&self, a: u8, b: u8, c: u8) -> (r: Bitboard)
        requires
            self.wf(),
            0 < a < 7,
            0 < b < 7,
            0 < c < 7,
        ensures
            forall|s: int| #[trigger]
                bits::mem(r, s) == (0 <= s < 64 && self.sq()[s] != 0 && (self.sq()[s] as int % 8
                    == a || self.sq()[s] as int % 8 == b || self.sq()[s] as int % 8 == c)),
    {
        broadcast use bits::group_mem;

        self.pieces_of(a) | self.pieces_of(b) | self.pieces_of(c)
    }

    /// The squares of four piece types.
    pub fn pieces_of_four(&self, a: u8, b: u8, c: u8, d: u8) -> (r: Bitboard)
        requires
            self.wf(),
            0 < a < 7,
            0 < b < 7,
            0 < c < 7,
            0 < d < 7,
        ensures
            forall|s: int| #[trigger]
                bits::mem(r, s) == (0 <= s < 64 && self.sq()[s] != 0 && (self.sq()[s] as int % 8
                    == a || self.sq()[s] as int % 8 == b || self.sq()[s] as int % 8 == c
                    || self.sq()[s] as int % 8 == d)),
    {
        broadcast use bits::group_mem;

        self.pieces_of(a) | self.pieces_of(b) | self.pieces_of(c) | self.pieces_of(d)
    }

    /// The squares of five piece types.
    pub fn pieces_of_five(&self, a: u8, b: u8, c: u8, d: u8, e: u8) -> (r: Bitboard)
        requires
            self.wf(),
            0 < a < 7,
            0 < b < 7,
            0 < c < 7,
            0 < d < 7,
            0 < e < 7,
        ensures
            forall|s: int| #[trigger]
                bits::mem(r, s) == (0 <= s < 64 && self.sq()[s] != 0 && (self.sq()[s] as int % 8
                    == a || self.sq()[s] as int % 8 == b || self.sq()[s] as int % 8 == c
                    || self.sq()[s] as int % 8 == d || self.sq()[s] as int % 8 == e)),
    {
        broadcast use bits::group_mem;

        self.pieces_of(a) | self.pieces_of(b) | self.pieces_of(c) | self.pieces_of(d)
            | self.pieces_of(e)
    }

    /// The squares of a colour.
    pub fn pieces_of_color(&self, c: Color) -> (r: Bitboard)
        requires
            self.wf(),
        ensures
            forall|s: int| #[trigger]
                bits::mem(r, s) == (0 <= s < 64 && self.sq()[s] != 0 && self.sq()[s] as int / 8
                    == c.index()),
    {
        self.by_color[c.idx()]
    }

    /// The pawns of a colour.
    pub fn pawns(&self, c: Color) -> (r: Bitboard)
        requires
            self.wf(),
        ensures
            forall|s: int| #[trigger]
                bits::mem(r, s) == (0 <= s < 64 && self.sq()[s] == 8 * c.index() + PAWN),
    {
        broadcast use bits::group_mem;

        self.by_type[1] & self.by_color[c.idx()]
    }

    /// The pawns of both colours.
    pub fn all_pawns(&self) -> (r: Bitboard)
        requires
            self.wf(),
        ensures
            forall|s: int| #[trigger]
                bits::mem(r, s) == (0 <= s < 64 && (self.sq()[s] == 1 || self.sq()[s] == 9)),
    {
        self.by_type[1]
    }

    /// The lowest square with the king of a colour; 64 where there is none.
    pub open spec fn king_sq(self, c: Color) -> int {
        king_of(self.sq(), c.index())
    }

    /// The lowest square with the king of a colour; 64 where there is none.
    pub fn king_square(&self, c: Color) -> (r: usize)
        requires
            self.wf(),
        ensures
            r == self.king_sq(c),
            r <= 64,
    {
        broadcast use bits::group_mem;

        let k: Bitboard = self.pieces_of(KING) & self.pieces_of_color(c);
        proof {
            vstd::std_specs::bits::axiom_u64_trailing_zeros(k);
            bits::lemma_nonzero(k);
            if k != 0 {
                bits::lemma_lsb(k);
                assert forall|t: int| 0 <= t < bits::lsb(k) implies #[trigger] self.sq()[t] != 8
                    * c.index() + 6 by {
                    assert(!bits::mem(k, t));
                }
                lemma_king_of(self.sq(), c.index(), bits::lsb(k));
            } else {
                assert forall|s: int| 0 <= s < 64 implies self.sq()[s] != 8 * c.index() + 6 by {
                    assert(!bits::mem(k, s));
                }
            }
        }
        k.trailing_zeros() as usize
    }

    /// How many squares hold the piece `pc`; for 0 and 8 how many hold a piece
    /// of White and of Black.
    pub fn piece_count_of(&self, pc: u8) -> (r: u32)
        requires
            self.wf(),
            pc < 16,
        ensures
            r == count_at(self.sq(), pc as int),
    {
        self.piece_count[pc as usize]
    }

    /// How many pieces stand on the board.
    pub fn piece_count(&self) -> (r: u32)
        requires
            self.wf(),
        ensures
            r == tally(self.sq(), |v: u8| v != 0),
            r <= 64,
    {
        proof {
            lemma_total(self.sq());
        }
        assert(self.piece_count@[0] == count_at(self.squares@, 0));
        assert(self.piece_count@[8] == count_at(self.squares@, 8));
        self.piece_count[0] + self.piece_count[8]
    }

    /// The value of the pieces of both colours that are neither pawns nor
    /// kings.
    pub fn non_pawn_material(&self) -> (r: i32)
        requires
            self.wf(),
        ensures
            r == non_pawn_value(self.sq()),
            0 <= r <= 128 * 5420,
    {
        proof {
            lemma_counts(self.squares@, 0, 0);
            assert forall|pc: int| 0 <= pc < 16 && pc % 8 != 0 implies #[trigger] self.piece_count@[pc]
                == count_of(self.sq(), pc) by {
                assert(where_piece(self.squares@, |v: u8| counted(pc, v)) =~= where_piece(
                    self.squares@,
                    is_code(pc),
                ));
            }
        }
        let n: i32 = (self.piece_count[2] + self.piece_count[10]) as i32;
        let b: i32 = (self.piece_count[3] + self.piece_count[11]) as i32;
        let r: i32 = (self.piece_count[4] + self.piece_count[12]) as i32;
        let q: i32 = (self.piece_count[5] + self.piece_count[13]) as i32;
        proof {
            lemma_four_kinds(self.sq());
        }
        781 * n + 825 * b + 1276 * r + 2538 * q
    }

    /// The board as text: the letters of the pieces, rank by rank from the
    /// eighth, White in capitals and empty squares as dots.
    pub fn to_text(&self) -> (r: String)
        requires
            self.wf(),
        ensures
            r@ == ranks_text(self.sq(), 8),
    {
        let mut out: String = String::new();
        let mut rank: usize = 8;
        assert(out@ =~= Seq::<char>::empty());
        while rank > 0
            invariant
                self.wf(),
                rank <= 8,
                out@ + ranks_text(self.sq(), rank as int) == ranks_text(self.sq(), 8),
            decreases rank,
        {
            let ghost r0 = rank as int;
            let ghost start = out@;
            rank = rank - 1;
            let mut file: usize = 0;
            while file < 8
                invariant
                    self.wf(),
                    rank < 8,
                    file <= 8,
                    out@ == start + files_text(self.sq(), rank as int, file as int),
                decreases 8 - file,
            {
                let ghost before = out@;
                out.append(piece_letter(self.squares[8 * rank + file]));
                assert(out@ =~= start + files_text(self.sq(), rank as int, file + 1));
                file = file + 1;
            }
            let ghost line = files_text(self.sq(), rank as int, 8);
            if rank == 0 {
                out.append("\n");
            } else {
                out.append(" / ");
            }
            assert(out@ + ranks_text(self.sq(), rank as int) =~= start + ranks_text(
                self.sq(),
                r0,
            ));
        }
        assert(out@ + ranks_text(self.sq(), 0) =~= out@);
        out
    }

    // --- changes -----------------------------------------------------------------

    /// Places a piece on an empty square.
    pub fn put_piece_quiet(&mut self, pc: u8, s: usize)
        requires
            old(self).wf(),
            s < 64,
            old(self).sq()[s as int] == 0,
            types::is_piece(pc as int),
        ensures
            final(self).wf(),
            final(self).sq() == old(self).sq().update(s as int, pc),
    {
        broadcast use bits::group_mem;

        let ghost before = self.squares@;
        let one: Bitboard = square_bb(s);
        let pt: usize = type_of(pc) as usize;
        let c: usize = color_of(pc);
        proof {
            lemma_counts(before, s as int, pc);
        }
        self.squares[s] = pc;
        self.by_type[0] = self.by_type[0] | one;
        self.by_type[pt] = self.by_type[pt] | one;
        self.by_color[c] = self.by_color[c] | one;
        self.piece_count[pc as usize] = self.piece_count[pc as usize] + 1;
        self.piece_count[c * 8] = self.piece_count[c * 8] + 1;
    }

    /// Takes the piece off a square.
    fn take_piece_quiet(&mut self, s: usize)
        requires
            old(self).wf(),
            s < 64,
            old(self).sq()[s as int] != 0,
        ensures
            final(self).wf(),
            final(self).sq() == old(self).sq().update(s as int, 0),
    {
        broadcast use bits::group_mem;

        let ghost before = self.squares@;
        let pc: u8 = self.squares[s];
        let one: Bitboard = square_bb(s);
        let pt: usize = type_of(pc) as usize;
        let c: usize = color_of(pc);
        proof {
            lemma_counts(before, s as int, 0);
        }
        self.by_type[0] = self.by_type[0] ^ one;
        self.by_type[pt] = self.by_type[pt] ^ one;
        self.by_color[c] = self.by_color[c] ^ one;
        self.squares[s] = NO_PIECE;
        self.piece_count[pc as usize] = self.piece_count[pc as usize] - 1;
        self.piece_count[c * 8] = self.piece_count[c * 8] - 1;
    }

    // --- attack records ------------------------------------------------------------

    /// Reports what the slider on `q` gains or loses by the change of `s`.
    #[verifier::spinoff_prover]
    fn report_slider(
        &self,
        pc: u8,
        put_piece: bool,
        s: usize,
        q: usize,
        seen: Bitboard,
        no_kings: Bitboard,
        dts: &mut DirtyThreats,
        mask: Bitboard,
        direct: bool,
    )
        requires
            self.wf(),
            s < 64,
            q < 64,
            types::is_piece(pc as int),
            direct ==> pc % 8 != KING,
            old(dts).list@.len() <= 96,
            slider_on(self.sq().update(s as int, 0), q as int, s as int),
            forall|t: int| #[trigger]
                bits::mem(no_kings, t) == (0 <= t < 64 && self.sq()[t] != 0 && 1 <= self.sq()[t]
                    as int % 8 <= 5),
            forall|t: int| #[trigger]
                bits::mem(seen, t) == ((geometry::diagonal(s as int, t) || geometry::straight(
                    s as int,
                    t,
                )) && open_line(self.sq().update(s as int, 0), s as int, t)),
        ensures
            final(dts).list@ == bits::capped(
                old(dts).list@ + slider_rec(
                    self.sq().update(s as int, 0),
                    pc as int,
                    put_piece,
                    s as int,
                    mask,
                    direct,
                )(q as int),
                96,
            ),
            final(dts).list@.len() <= 96,
    {
        let ghost sq = self.sq().update(s as int, 0);
        let ghost l0 = dts.list@;
        let slider: u8 = self.squares[q];
        let line: Bitboard = ray_pass_bb(q, s);
        let over: Bitboard = line & seen & no_kings;
        proof {
            self.lemma_over(q as int, s as int, line, seen, no_kings, over, mask);
            bits::lemma_nonzero(over);
            if over != 0 {
                bits::lemma_lsb(over);
            }
            lemma_within(q as int, s as int, line, mask);
        }
        let ghost piece1 = uncovered(sq, q as int, s as int, put_piece, mask);
        let mut reported: bool = false;
        if over != 0 && line & mask != mask {
            let d: usize = over.trailing_zeros() as usize;
            let target: u8 = self.squares[d];
            assert(bits::mem(over, d as int));
            if can_slider_threat(target, slider) {
                proof {
                    assert(runs_over(sq, q as int, s as int, d as int, mask));
                    let e = choose|e: int| runs_over(sq, q as int, s as int, e, mask);
                    lemma_first_beyond(sq, q as int, s as int, d as int, e);
                    assert(piece1 == seq![
                        record(sq[q as int] as int, sq[d as int] as int, q as int, d as int, !put_piece),
                    ]);
                }
                dts.push(DirtyThreat::new(slider, target, q, d, !put_piece));
                reported = true;
                assert(l0.push(
                    record(sq[q as int] as int, sq[d as int] as int, q as int, d as int, !put_piece),
                ) =~= l0 + piece1);
            } else {
                proof {
                    if exists|e: int| runs_over(sq, q as int, s as int, e, mask) {
                        let e = choose|e: int| runs_over(sq, q as int, s as int, e, mask);
                        lemma_first_beyond(sq, q as int, s as int, d as int, e);
                        assert(false);
                    }
                }
            }
        } else {
            proof {
                if exists|e: int| runs_over(sq, q as int, s as int, e, mask) {
                    let e = choose|e: int| runs_over(sq, q as int, s as int, e, mask);
                    assert(bits::mem(over, e));
                    assert(false);
                }
            }
        }
        proof {
            if !reported {
                assert(piece1 =~= Seq::empty());
                assert(l0 + piece1 =~= l0);
            }
            assert(dts.list@ == bits::capped(l0 + piece1, 96));
        }
        let ghost l1 = dts.list@;
        let ghost piece2 = if direct && may_threaten(sq[q as int] as int % 8, pc as int % 8) {
            seq![record(sq[q as int] as int, pc as int, q as int, s as int, put_piece)]
        } else {
            Seq::empty()
        };
        if direct && can_slider_threat(pc, slider) {
            dts.push(DirtyThreat::new(slider, pc, q, s, put_piece));
            assert(l1.push(
                record(sq[q as int] as int, pc as int, q as int, s as int, put_piece),
            ) =~= l1 + piece2);
        } else {
            assert(l1 + piece2 =~= l1);
        }
        proof {
            bits::lemma_capped(l0 + piece1, piece2, 96);
            assert((l0 + piece1) + piece2 =~= l0 + (piece1 + piece2));
        }
    }

    /// Reports what the sliders that look at `s` gain or lose there.
    fn process_sliders(
        &self,
        pc: u8,
        put_piece: bool,
        s: usize,
        sliders: Bitboard,
        seen: Bitboard,
        dts: &mut DirtyThreats,
        mask: Bitboard,
        direct: bool,
    )
        requires
            self.wf(),
            s < 64,
            types::is_piece(pc as int),
            direct ==> pc % 8 != KING,
            old(dts).list@.len() <= 96,
            forall|t: int| #[trigger]
                bits::mem(sliders, t) == slider_on(self.sq().update(s as int, 0), t, s as int),
            forall|t: int| #[trigger]
                bits::mem(seen, t) == ((geometry::diagonal(s as int, t) || geometry::straight(
                    s as int,
                    t,
                )) && open_line(self.sq().update(s as int, 0), s as int, t)),
        ensures
            final(dts).list@ == bits::capped(
                old(dts).list@ + slider_records(
                    self.sq().update(s as int, 0),
                    pc as int,
                    put_piece,
                    s as int,
                    mask,
                    direct,
                ),
                96,
            ),
            final(dts).list@.len() <= 96,
    {
        let ghost sq = self.sq().update(s as int, 0);
        let ghost rec = slider_rec(sq, pc as int, put_piece, s as int, mask, direct);
        let ghost start = dts.list@;
        proof {
            lemma_word_of(sliders, sliders_to(sq, s as int));
        }
        let no_kings: Bitboard = self.pieces_of_five(PAWN, KNIGHT, BISHOP, ROOK, QUEEN);
        let mut b: Bitboard = sliders;
        while b != 0
            invariant
                self.wf(),
                s < 64,
                types::is_piece(pc as int),
                direct ==> pc % 8 != KING,
                sq == self.sq().update(s as int, 0),
                rec == slider_rec(sq, pc as int, put_piece, s as int, mask, direct),
                dts.list@.len() <= 96,
                forall|t: int| #[trigger] bits::mem(b, t) ==> slider_on(sq, t, s as int),
                forall|t: int| #[trigger]
                    bits::mem(no_kings, t) == (0 <= t < 64 && self.sq()[t] != 0 && 1 <= self.sq()[t]
                        as int % 8 <= 5),
                forall|t: int| #[trigger]
                    bits::mem(seen, t) == ((geometry::diagonal(s as int, t) || geometry::straight(
                        s as int,
                        t,
                    )) && open_line(sq, s as int, t)),
                bits::capped(dts.list@ + bits::flat(b, rec), 96) == bits::capped(
                    start + bits::flat(sliders, rec),
                    96,
                ),
            decreases b,
        {
            let ghost b0 = b;
            let ghost l0 = dts.list@;
            let q: usize = pop_lsb(&mut b);
            self.report_slider(pc, put_piece, s, q, seen, no_kings, dts, mask, direct);
            proof {
                bits::lemma_capped(l0 + rec(q as int), bits::flat(b, rec), 96);
                assert((l0 + rec(q as int)) + bits::flat(b, rec) =~= l0 + bits::flat(b0, rec));
            }
        }
        assert(dts.list@ + bits::flat(0u64, rec) =~= dts.list@);
    }

    /// What the squares beyond `s` on the line of a slider hold.
    proof fn lemma_over(
        self,
        q: int,
        s: int,
        line: u64,
        seen: u64,
        no_kings: u64,
        over: u64,
        mask: u64,
    )
        requires
            self.wf(),
            0 <= s < 64,
            slider_on(self.sq().update(s, 0), q, s),
            over == line & seen & no_kings,
            forall|t: int| #[trigger] bits::mem(line, t) == attacks::on_line_through(q, s, t),
            forall|t: int| #[trigger]
                bits::mem(no_kings, t) == (0 <= t < 64 && self.sq()[t] != 0 && 1 <= self.sq()[t]
                    as int % 8 <= 5),
            forall|t: int| #[trigger]
                bits::mem(seen, t) == ((geometry::diagonal(s, t) || geometry::straight(s, t))
                    && open_line(self.sq().update(s, 0), s, t)),
        ensures
            q != s,
            self.sq()[q] == self.sq().update(s, 0)[q],
            forall|d: int| #[trigger]
                bits::mem(over, d) ==> geometry::between(q, s, d) && open_line(
                    self.sq().update(s, 0),
                    s,
                    d,
                ) && self.sq().update(s, 0)[d] != 0 && d != s && 1 <= self.sq()[d] as int % 8 <= 5
                    && self.sq()[d] == self.sq().update(s, 0)[d],
            forall|d: int| #[trigger]
                runs_over(self.sq().update(s, 0), q, s, d, mask) ==> bits::mem(over, d),
    {
        let sq = self.sq().update(s, 0);
        assert forall|d: int| #[trigger] bits::mem(over, d) implies geometry::between(q, s, d)
            && open_line(sq, s, d) && sq[d] != 0 && d != s && 1 <= self.sq()[d] as int % 8 <= 5
            && self.sq()[d] == sq[d] by {
            bits::mem_and(line & seen, no_kings, d);
            bits::mem_and(line, seen, d);
            if geometry::between(q, d, s) {
                assert(sq[d] == 0);
                geometry::lemma_between_aligned(q, d, s);
            }
        }
        assert forall|d: int| #[trigger] runs_over(sq, q, s, d, mask) implies bits::mem(over, d) by {
            bits::mem_and(line & seen, no_kings, d);
            bits::mem_and(line, seen, d);
            geometry::lemma_between_aligned(q, s, d);
        }
    }

    /// Reports the attacks that the piece `pc` makes or ends by coming to `s`
    /// or leaving it. Without `compute_ray` the lines over `s` count as
    /// unchanged, because another piece takes the place of the first.
    #[verifier::spinoff_prover]
    #[verifier::rlimit(40)]
    fn update_piece_threats(
        &self,
        pc: u8,
        put_piece: bool,
        s: usize,
        dts: &mut DirtyThreats,
        compute_ray: bool,
        no_rays_containing: Bitboard,
    )
        requires
            self.wf(),
            s < 64,
            types::is_piece(pc as int),
            old(dts).list@.len() <= 96,
        ensures
            final(dts).list@ == bits::capped(
                old(dts).list@ + emitted(
                    self.sq().update(s as int, 0),
                    pc as int,
                    put_piece,
                    s as int,
                    compute_ray,
                    no_rays_containing,
                ),
                96,
            ),
            final(dts).list@.len() <= 96,
    {
        let ghost sq = self.sq().update(s as int, 0);
        let ghost start = dts.list@;
        let occupied: Bitboard = self.pieces();
        let (b_attacks, r_attacks) = both_attacks_bb(s, occupied);
        let slider_attacks: Bitboard = b_attacks | r_attacks;
        let pt: u8 = type_of(pc);
        let bq: Bitboard = self.pieces_of_many(BISHOP, QUEEN);
        let rq: Bitboard = self.pieces_of_many(ROOK, QUEEN);
        let sliders: Bitboard = (bq & b_attacks) | (rq & r_attacks);
        proof {
            self.lemma_seen(s as int, occupied, b_attacks, r_attacks, slider_attacks);
            self.lemma_sliders(s as int, b_attacks, r_attacks, bq, rq, sliders);
        }
        if pt == KING {
            if compute_ray {
                self.process_sliders(
                    pc,
                    put_piece,
                    s,
                    sliders,
                    slider_attacks,
                    dts,
                    no_rays_containing,
                    false,
                );
            } else {
                assert(start + Seq::<DirtyThreat>::empty() =~= start);
            }
            return ;
        }
        let targets: Bitboard = if pt == PAWN {
            self.pieces_of_many(KNIGHT, ROOK)
        } else if pt == BISHOP || pt == ROOK {
            self.pieces_of_four(PAWN, KNIGHT, BISHOP, ROOK)
        } else {
            self.pieces_of_five(PAWN, KNIGHT, BISHOP, ROOK, QUEEN)
        };
        let own: Bitboard = if pt == BISHOP {
            b_attacks
        } else if pt == ROOK {
            r_attacks
        } else if pt == QUEEN {
            slider_attacks
        } else if pt == PAWN {
            pawn_attacks(Color::from_index(color_of(pc)), s)
        } else {
            pseudo_attacks(pt, s)
        };
        let threatened: Bitboard = own & targets;
        let ghost out = outgoing_rec(sq, pc as int, put_piece, s as int);
        proof {
            assert forall|t: int| 0 <= t < 64 implies #[trigger] bits::mem(threatened, t)
                == attacks_at(sq, pc as int, s as int)(t) by {
                bits::mem_and(own, targets, t);
            }
            lemma_word_of(threatened, attacks_at(sq, pc as int, s as int));
        }
        self.report_outgoing(pc, put_piece, s, threatened, dts);
        let ghost e1 = bits::flat(threatened, out);
        let leaps: Bitboard = knight_attacks(s);
        let knights: Bitboard = self.pieces_of(KNIGHT);
        let mut incoming: Bitboard = leaps & knights;
        proof {
            assert forall|t: int| #[trigger] bits::mem(incoming, t) == (geometry::knight_step(
                s as int,
                t,
            ) && sq[t] as int % 8 == KNIGHT) by {
                bits::mem_and(leaps, knights, t);
            }
        }
        if pt == KNIGHT || pt == ROOK {
            let up: Bitboard = pawn_attacks(Color::White, s);
            let down: Bitboard = pawn_attacks(Color::Black, s);
            let white: Bitboard = self.pawns(Color::White);
            let black: Bitboard = self.pawns(Color::Black);
            let above: Bitboard = up & black;
            let below: Bitboard = down & white;
            proof {
                assert forall|x: int| #[trigger] bits::mem(above, x) == (geometry::pawn_step(
                    0,
                    s as int,
                    x,
                ) && self.sq()[x] == 9) by {
                    bits::mem_and(up, black, x);
                }
                assert forall|x: int| #[trigger] bits::mem(below, x) == (geometry::pawn_step(
                    1,
                    s as int,
                    x,
                ) && self.sq()[x] == 1) by {
                    bits::mem_and(down, white, x);
                }
            }
            let ghost before = incoming;
            let pawns: Bitboard = above | below;
            incoming = incoming | pawns;
            proof {
                assert forall|t: int| #[trigger] bits::mem(incoming, t) == (bits::mem(before, t) || (
                geometry::on_board(t) && sq[t] as int % 8 == PAWN && geometry::pawn_step(
                    sq[t] as int / 8,
                    t,
                    s as int,
                ))) by {
                    bits::mem_or(before, pawns, t);
                    self.lemma_pawns_to(s as int, above, below, t);
                }
            }
        }
        let ghost e2 = if compute_ray {
            slider_records(sq, pc as int, put_piece, s as int, no_rays_containing, true)
        } else {
            Seq::empty()
        };
        let ghost l1 = dts.list@;
        let ghost near = incoming;
        if compute_ray {
            self.process_sliders(
                pc,
                put_piece,
                s,
                sliders,
                slider_attacks,
                dts,
                no_rays_containing,
                true,
            );
        } else {
            let queens: Bitboard = self.pieces_of(QUEEN);
            let extra: Bitboard = if pt == QUEEN {
                sliders & queens
            } else {
                sliders
            };
            incoming = incoming | extra;
            proof {
                assert forall|t: int| #[trigger] bits::mem(incoming, t) == (bits::mem(near, t) || (
                slider_on(sq, t, s as int) && may_threaten(sq[t] as int % 8, pc as int % 8))) by {
                    bits::mem_or(near, extra, t);
                    bits::mem_and(sliders, queens, t);
                    geometry::lemma_rays(t, s as int);
                    if slider_on(sq, t, s as int) {
                        assert(t != s);
                    }
                }
                assert(l1 + e2 =~= l1);
            }
        }
        proof {
            assert(dts.list@ == bits::capped(l1 + e2, 96));
            assert forall|q: int| 0 <= q < 64 implies #[trigger] bits::mem(incoming, q)
                == attacked_from(sq, pc as int, s as int, compute_ray)(q) by {
                self.lemma_incoming(pc as int, s as int, near, incoming, compute_ray, q);
            }
            lemma_word_of(incoming, attacked_from(sq, pc as int, s as int, compute_ray));
        }
        let ghost l2 = dts.list@;
        self.report_incoming(pc, put_piece, s, incoming, dts);
        proof {
            let e3 = bits::flat(incoming, incoming_rec(sq, pc as int, put_piece, s as int));
            bits::lemma_capped(start + e1, e2, 96);
            bits::lemma_capped(start + e1 + e2, e3, 96);
            assert(emitted(sq, pc as int, put_piece, s as int, compute_ray, no_rays_containing)
                == e1 + e2 + e3);
            assert(start + (e1 + e2 + e3) =~= start + e1 + e2 + e3);
        }
    }

    /// Reports the attacks of the piece on `s`.
    fn report_outgoing(
        &self,
        pc: u8,
        put_piece: bool,
        s: usize,
        threatened: Bitboard,
        dts: &mut DirtyThreats,
    )
        requires
            s < 64,
            self.wf(),
            old(dts).list@.len() <= 96,
            !bits::mem(threatened, s as int),
        ensures
            final(dts).list@ == bits::capped(
                old(dts).list@ + bits::flat(
                    threatened,
                    outgoing_rec(
                        self.sq().update(s as int, 0),
                        pc as int,
                        put_piece,
                        s as int,
                    ),
                ),
                96,
            ),
            final(dts).list@.len() <= 96,
    {
        let ghost sq = self.sq().update(s as int, 0);
        let ghost rec = outgoing_rec(sq, pc as int, put_piece, s as int);
        let ghost start = dts.list@;
        let mut b: Bitboard = threatened;
        while b != 0
            invariant
                s < 64,
                self.wf(),
                sq == self.sq().update(s as int, 0),
                rec == outgoing_rec(sq, pc as int, put_piece, s as int),
                dts.list@.len() <= 96,
                !bits::mem(b, s as int),
                bits::capped(dts.list@ + bits::flat(b, rec), 96) == bits::capped(
                    start + bits::flat(threatened, rec),
                    96,
                ),
            decreases b,
        {
            let ghost b0 = b;
            let ghost l0 = dts.list@;
            let to: usize = pop_lsb(&mut b);
            dts.push(DirtyThreat::new(pc, self.squares[to], s, to, put_piece));
            proof {
                assert(l0.push(record(pc as int, sq[to as int] as int, s as int, to as int, put_piece))
                    =~= l0 + rec(to as int));
                bits::lemma_capped(l0 + rec(to as int), bits::flat(b, rec), 96);
                assert((l0 + rec(to as int)) + bits::flat(b, rec) =~= l0 + bits::flat(b0, rec));
            }
        }
        assert(dts.list@ + bits::flat(0u64, rec) =~= dts.list@);
    }

    /// Reports the attacks on the piece on `s`.
    fn report_incoming(
        &self,
        pc: u8,
        put_piece: bool,
        s: usize,
        incoming: Bitboard,
        dts: &mut DirtyThreats,
    )
        requires
            s < 64,
            self.wf(),
            old(dts).list@.len() <= 96,
            !bits::mem(incoming, s as int),
        ensures
            final(dts).list@ == bits::capped(
                old(dts).list@ + bits::flat(
                    incoming,
                    incoming_rec(
                        self.sq().update(s as int, 0),
                        pc as int,
                        put_piece,
                        s as int,
                    ),
                ),
                96,
            ),
            final(dts).list@.len() <= 96,
    {
        let ghost sq = self.sq().update(s as int, 0);
        let ghost rec = incoming_rec(sq, pc as int, put_piece, s as int);
        let ghost start = dts.list@;
        let mut b: Bitboard = incoming;
        while b != 0
            invariant
                s < 64,
                self.wf(),
                sq == self.sq().update(s as int, 0),
                rec == incoming_rec(sq, pc as int, put_piece, s as int),
                dts.list@.len() <= 96,
                !bits::mem(b, s as int),
                bits::capped(dts.list@ + bits::flat(b, rec), 96) == bits::capped(
                    start + bits::flat(incoming, rec),
                    96,
                ),
            decreases b,
        {
            let ghost b0 = b;
            let ghost l0 = dts.list@;
            let from: usize = pop_lsb(&mut b);
            dts.push(DirtyThreat::new(self.squares[from], pc, from, s, put_piece));
            proof {
                assert(l0.push(
                    record(sq[from as int] as int, pc as int, from as int, s as int, put_piece),
                ) =~= l0 + rec(from as int));
                bits::lemma_capped(l0 + rec(from as int), bits::flat(b, rec), 96);
                assert((l0 + rec(from as int)) + bits::flat(b, rec) =~= l0 + bits::flat(b0, rec));
            }
        }
        assert(dts.list@ + bits::flat(0u64, rec) =~= dts.list@);
    }

    /// What the slider attacks from `s` see on the board without `s`.
    proof fn lemma_seen(self, s: int, occ: u64, diag: u64, line: u64, both: u64)
        requires
            self.wf(),
            0 <= s < 64,
            both == diag | line,
            forall|t: int| #[trigger] bits::mem(occ, t) == (0 <= t < 64 && self.sq()[t] != 0),
            forall|t: int| #[trigger]
                bits::mem(diag, t) == attacks::slides(BISHOP as int, s, t, occ),
            forall|t: int| #[trigger] bits::mem(line, t) == attacks::slides(ROOK as int, s, t, occ),
        ensures
            forall|t: int| #[trigger]
                bits::mem(diag, t) == (geometry::diagonal(s, t) && open_line(
                    self.sq().update(s, 0),
                    s,
                    t,
                )),
            forall|t: int| #[trigger]
                bits::mem(line, t) == (geometry::straight(s, t) && open_line(
                    self.sq().update(s, 0),
                    s,
                    t,
                )),
            forall|t: int| #[trigger]
                bits::mem(both, t) == ((geometry::diagonal(s, t) || geometry::straight(s, t))
                    && open_line(self.sq().update(s, 0), s, t)),
    {
        assert forall|t: int| geometry::clear(s, t, occ) == #[trigger] open_line(
            self.sq().update(s, 0),
            s,
            t,
        ) by {
            lemma_open_line_word(self.sq(), occ, s, t);
            lemma_lines_without(self.sq(), s, 0, s, t);
        }
        assert forall|t: int| #[trigger] bits::mem(diag, t) == (geometry::diagonal(s, t)
            && open_line(self.sq().update(s, 0), s, t)) by {}
        assert forall|t: int| #[trigger] bits::mem(line, t) == (geometry::straight(s, t)
            && open_line(self.sq().update(s, 0), s, t)) by {}
        assert forall|t: int| #[trigger] bits::mem(both, t) == ((geometry::diagonal(s, t)
            || geometry::straight(s, t)) && open_line(self.sq().update(s, 0), s, t)) by {
            bits::mem_or(diag, line, t);
        }
    }

    /// Which sliders look at `s`.
    proof fn lemma_sliders(self, s: int, diag: u64, line: u64, bq: u64, rq: u64, sliders: u64)
        requires
            self.wf(),
            0 <= s < 64,
            sliders == (bq & diag) | (rq & line),
            forall|t: int| #[trigger]
                bits::mem(bq, t) == (0 <= t < 64 && self.sq()[t] != 0 && (self.sq()[t] as int % 8
                    == BISHOP || self.sq()[t] as int % 8 == QUEEN)),
            forall|t: int| #[trigger]
                bits::mem(rq, t) == (0 <= t < 64 && self.sq()[t] != 0 && (self.sq()[t] as int % 8
                    == ROOK || self.sq()[t] as int % 8 == QUEEN)),
            forall|t: int| #[trigger]
                bits::mem(diag, t) == (geometry::diagonal(s, t) && open_line(
                    self.sq().update(s, 0),
                    s,
                    t,
                )),
            forall|t: int| #[trigger]
                bits::mem(line, t) == (geometry::straight(s, t) && open_line(
                    self.sq().update(s, 0),
                    s,
                    t,
                )),
        ensures
            forall|t: int| #[trigger]
                bits::mem(sliders, t) == slider_on(self.sq().update(s, 0), t, s),
    {
        let sq = self.sq().update(s, 0);
        assert forall|t: int| #[trigger] bits::mem(sliders, t) == slider_on(sq, t, s) by {
            bits::mem_or(bq & diag, rq & line, t);
            bits::mem_and(bq, diag, t);
            bits::mem_and(rq, line, t);
            lemma_open_line_sym(sq, s, t);
        }
    }

    proof fn lemma_pawns_to(self, s: int, above: u64, below: u64, t: int)
        requires
            self.wf(),
            0 <= s < 64,
            forall|x: int| #[trigger]
                bits::mem(above, x) == (geometry::pawn_step(0, s, x) && self.sq()[x] == 9),
            forall|x: int| #[trigger]
                bits::mem(below, x) == (geometry::pawn_step(1, s, x) && self.sq()[x] == 1),
        ensures
            bits::mem(above | below, t) == (geometry::on_board(t) && self.sq().update(s, 0)[t]
                as int % 8 == PAWN && geometry::pawn_step(
                self.sq().update(s, 0)[t] as int / 8,
                t,
                s,
            )),
    {
        bits::mem_or(above, below, t);
    }

    proof fn lemma_incoming(
        self,
        pc: int,
        s: int,
        near: u64,
        incoming: u64,
        ray: bool,
        q: int,
    )
        requires
            self.wf(),
            0 <= s < 64,
            0 <= q < 64,
            types::is_piece(pc),
            pc % 8 != KING,
            forall|t: int| #[trigger]
                bits::mem(near, t) == ((geometry::knight_step(s, t) && self.sq().update(s, 0)[t]
                    as int % 8 == KNIGHT) || ((pc % 8 == KNIGHT || pc % 8 == ROOK)
                    && geometry::on_board(t) && self.sq().update(s, 0)[t] as int % 8 == PAWN
                    && geometry::pawn_step(self.sq().update(s, 0)[t] as int / 8, t, s))),
            ray ==> incoming == near,
            !ray ==> forall|t: int| #[trigger]
                bits::mem(incoming, t) == (bits::mem(near, t) || (slider_on(
                    self.sq().update(s, 0),
                    t,
                    s,
                ) && may_threaten(self.sq().update(s, 0)[t] as int % 8, pc % 8))),
        ensures
            bits::mem(incoming, q) == attacked_from(self.sq().update(s, 0), pc, s, ray)(q),
    {
        let sq = self.sq().update(s, 0);
        assert(valid_squares(sq));
        assert(bits::mem(near, q) == ((geometry::knight_step(s, q) && sq[q] as int % 8 == KNIGHT)
            || ((pc % 8 == KNIGHT || pc % 8 == ROOK) && geometry::on_board(q) && sq[q] as int % 8
            == PAWN && geometry::pawn_step(sq[q] as int / 8, q, s))));
        assert(geometry::knight_step(s, q) == geometry::knight_step(q, s));
    }

    /// Places a piece on an empty square and reports its attacks.
    fn put_piece(&mut self, pc: u8, s: usize, dts: &mut DirtyThreats)
        requires
            old(self).wf(),
            s < 64,
            old(self).sq()[s as int] == 0,
            types::is_piece(pc as int),
            old(dts).list@.len() <= 96,
        ensures
            final(self).wf(),
            final(self).sq() == old(self).sq().update(s as int, pc),
            final(dts).list@ == bits::capped(
                old(dts).list@ + put_records(old(self).sq(), pc as int, s as int),
                96,
            ),
            final(dts).list@.len() <= 96,
    {
        self.update_piece_threats(pc, true, s, dts, true, ALL_SQUARES);
        assert(self.sq().update(s as int, 0) =~= self.sq());
        self.put_piece_quiet(pc, s);
    }

    /// Takes the piece off a square and reports the attacks that end.
    fn remove_piece(&mut self, s: usize, dts: &mut DirtyThreats)
        requires
            old(self).wf(),
            s < 64,
            old(self).sq()[s as int] != 0,
            old(dts).list@.len() <= 96,
        ensures
            final(self).wf(),
            final(self).sq() == old(self).sq().update(s as int, 0),
            final(dts).list@ == bits::capped(
                old(dts).list@ + remove_records(old(self).sq(), s as int),
                96,
            ),
            final(dts).list@.len() <= 96,
    {
        let pc: u8 = self.squares[s];
        self.update_piece_threats(pc, false, s, dts, true, ALL_SQUARES);
        self.take_piece_quiet(s);
    }

    /// Moves a piece to an empty square and reports the attacks that change.
    fn move_piece(&mut self, from: usize, to: usize, dts: &mut DirtyThreats)
        requires
            old(self).wf(),
            from < 64,
            to < 64,
            old(self).sq()[from as int] != 0,
            old(self).sq()[to as int] == 0,
            old(dts).list@.len() <= 96,
        ensures
            final(self).wf(),
            final(self).sq() == old(self).sq().update(from as int, 0).update(
                to as int,
                old(self).sq()[from as int],
            ),
            final(dts).list@ == bits::capped(
                old(dts).list@ + shift_records(old(self).sq(), from as int, to as int),
                96,
            ),
            final(dts).list@.len() <= 96,
    {
        let ghost sq0 = self.sq();
        let ghost l0 = dts.list@;
        let pc: u8 = self.squares[from];
        let from_to: Bitboard = square_bb(from) | square_bb(to);
        self.update_piece_threats(pc, false, from, dts, true, from_to);
        self.take_piece_quiet(from);
        self.put_piece_quiet(pc, to);
        self.update_piece_threats(pc, true, to, dts, true, from_to);
        proof {
            let gone = sq0.update(from as int, 0);
            assert(self.sq().update(to as int, 0) =~= gone);
            let e1 = emitted(gone, pc as int, false, from as int, true, from_to);
            let e2 = emitted(gone, pc as int, true, to as int, true, from_to);
            bits::lemma_capped(l0 + e1, e2, 96);
            assert((l0 + e1) + e2 =~= l0 + (e1 + e2));
        }
    }

    /// Puts a piece in the place of another and reports the attacks that
    /// change.
    fn swap_piece(&mut self, s: usize, pc: u8, dts: &mut DirtyThreats)
        requires
            old(self).wf(),
            s < 64,
            old(self).sq()[s as int] != 0,
            types::is_piece(pc as int),
            old(dts).list@.len() <= 96,
        ensures
            final(self).wf(),
            final(self).sq() == old(self).sq().update(s as int, pc),
            final(dts).list@ == bits::capped(
                old(dts).list@ + swap_records(old(self).sq(), s as int, pc as int),
                96,
            ),
            final(dts).list@.len() <= 96,
    {
        let ghost sq0 = self.sq();
        let ghost l0 = dts.list@;
        let gone: u8 = self.squares[s];
        self.take_piece_quiet(s);
        proof {
            assert(self.sq().update(s as int, 0) =~= sq0.update(s as int, 0));
        }
        self.update_piece_threats(gone, false, s, dts, false, ALL_SQUARES);
        self.put_piece_quiet(pc, s);
        self.update_piece_threats(pc, true, s, dts, false, ALL_SQUARES);
        proof {
            let without = sq0.update(s as int, 0);
            assert(self.sq().update(s as int, 0) =~= without);
            assert(self.sq() =~= sq0.update(s as int, pc));
            let e1 = emitted(without, gone as int, false, s as int, false, ALL_SQUARES);
            let e2 = emitted(without, pc as int, true, s as int, false, ALL_SQUARES);
            bits::lemma_capped(l0 + e1, e2, 96);
            assert((l0 + e1) + e2 =~= l0 + (e1 + e2));
        }
    }

    /// Plays a move of the side `us` and returns the next board with
    /// everything that changed.
    ///
    /// A promotion reports the new piece through `add_sq`; castling takes both
    /// pieces off before it places either.
    #[verifier::spinoff_prover]
    #[verifier::rlimit(60)]
    pub fn apply_move(&self, m: RawMove, us: Color) -> (r: MoveDirties)
        requires
            self.wf(),
            playable(self.sq(), m, us),
        ensures
            r.board.wf(),
            describes(r, self.sq(), m, us),
    {
        let from: usize = m.from();
        let to: usize = m.to();
        let pc: u8 = self.squares[from];
        let kind: u8 = m.kind();
        let mut board: Board = *self;
        let mut dts: DirtyThreats = DirtyThreats::new();
        let mut dp: DirtyPiece = DirtyPiece::new(pc, from, to);
        let ghost none: Seq<DirtyThreat> = Seq::empty();
        proof {
            assert(none + move_records(self.sq(), m, us) =~= move_records(self.sq(), m, us));
        }
        if kind == CASTLE {
            let home: usize = match us {
                Color::White => 0,
                Color::Black => 56,
            };
            let kto: usize = if to > from {
                home + 6
            } else {
                home + 2
            };
            let rto: usize = if to > from {
                home + 5
            } else {
                home + 3
            };
            let rook: u8 = make_piece(us.idx(), ROOK);
            let king: u8 = make_piece(us.idx(), KING);
            dp.to = kto;
            dp.remove_pc = rook;
            dp.add_pc = rook;
            dp.remove_sq = to;
            dp.add_sq = rto;
            board.remove_piece(from, &mut dts);
            let ghost l1 = dts.list@;
            let ghost s1 = board.sq();
            board.remove_piece(to, &mut dts);
            let ghost l2 = dts.list@;
            let ghost s2 = board.sq();
            board.put_piece(king, kto, &mut dts);
            let ghost l3 = dts.list@;
            let ghost s3 = board.sq();
            board.put_piece(rook, rto, &mut dts);
            proof {
                let e1 = remove_records(self.sq(), from as int);
                let e2 = remove_records(s1, to as int);
                let e3 = put_records(s2, king as int, kto as int);
                let e4 = put_records(s3, rook as int, rto as int);
                assert(none + e1 =~= e1);
                bits::lemma_capped(e1, e2, 96);
                bits::lemma_capped(e1 + e2, e3, 96);
                bits::lemma_capped(e1 + e2 + e3, e4, 96);
            }
        } else {
            let to_pc: u8 = match m.promotion() {
                Some(role) => make_piece(us.idx(), role.code()),
                None => pc,
            };
            if kind == EN_PASSANT {
                let victim: u8 = make_piece(us.other().idx(), PAWN);
                let cap: usize = match us {
                    Color::White => to - 8,
                    Color::Black => to + 8,
                };
                dp.remove_pc = victim;
                dp.remove_sq = cap;
                board.remove_piece(cap, &mut dts);
                let ghost l1 = dts.list@;
                let ghost s1 = board.sq();
                board.move_piece(from, to, &mut dts);
                proof {
                    let e1 = remove_records(self.sq(), cap as int);
                    let e2 = shift_records(s1, from as int, to as int);
                    assert(none + e1 =~= e1);
                    bits::lemma_capped(e1, e2, 96);
                }
            } else {
                let captured: u8 = self.squares[to];
                if m.is_promotion() {
                    dp.add_pc = to_pc;
                    dp.add_sq = to;
                    dp.to = SQ_NONE;
                }
                if captured != NO_PIECE {
                    dp.remove_pc = captured;
                    dp.remove_sq = to;
                    board.remove_piece(from, &mut dts);
                    let ghost s1 = board.sq();
                    board.swap_piece(to, to_pc, &mut dts);
                    proof {
                        let e1 = remove_records(self.sq(), from as int);
                        let e2 = swap_records(s1, to as int, to_pc as int);
                        assert(none + e1 =~= e1);
                        bits::lemma_capped(e1, e2, 96);
                    }
                } else if pc == to_pc {
                    board.move_piece(from, to, &mut dts);
                    assert(none + shift_records(self.sq(), from as int, to as int)
                        =~= shift_records(self.sq(), from as int, to as int));
                } else {
                    board.remove_piece(from, &mut dts);
                    let ghost s1 = board.sq();
                    board.put_piece(to_pc, to, &mut dts);
                    proof {
                        let e1 = remove_records(self.sq(), from as int);
                        let e2 = put_records(s1, to_pc as int, to as int);
                        assert(none + e1 =~= e1);
                        bits::lemma_capped(e1, e2, 96);
                    }
                }
            }
        }
        let before: [Bitboard; 2] = [self.pawns(Color::White), self.pawns(Color::Black)];
        let after: [Bitboard; 2] = [board.pawns(Color::White), board.pawns(Color::Black)];
        MoveDirties {
            board,
            dirty_piece: dp,
            dirty_threats: dts,
            dirty_pawn_pairs: DirtyPawnPairs { before, after },
        }
    }
}

/// The letter of a piece.
pub open spec fn letter(pc: int) -> Seq<char> {
    if pc == 0 {
        "."@
    } else if pc == 1 {
        "P"@
    } else if pc == 2 {
        "N"@
    } else if pc == 3 {
        "B"@
    } else if pc == 4 {
        "R"@
    } else if pc == 5 {
        "Q"@
    } else if pc == 6 {
        "K"@
    } else if pc == 9 {
        "p"@
    } else if pc == 10 {
        "n"@
    } else if pc == 11 {
        "b"@
    } else if pc == 12 {
        "r"@
    } else if pc == 13 {
        "q"@
    } else {
        "k"@
    }
}

/// The letter of a piece.
fn piece_letter(pc: u8) -> (r: &'static str)
    ensures
        r@ == letter(pc as int),
{
    match pc {
        0 => ".",
        1 => "P",
        2 => "N",
        3 => "B",
        4 => "R",
        5 => "Q",
        6 => "K",
        9 => "p",
        10 => "n",
        11 => "b",
        12 => "r",
        13 => "q",
        _ => "k",
    }
}

/// The first `n` squares of a rank as text.
pub open spec fn files_text(sq: Seq<u8>, rank: int, n: int) -> Seq<char>
    decreases n,
{
    if n <= 0 {
        Seq::empty()
    } else {
        files_text(sq, rank, n - 1) + letter(sq[8 * rank + n - 1] as int)
    }
}

/// The lowest `n` ranks as text, the highest of them first.
pub open spec fn ranks_text(sq: Seq<u8>, n: int) -> Seq<char>
    decreases n,
{
    if n <= 0 {
        Seq::empty()
    } else {
        files_text(sq, n - 1, 8) + (if n == 1 {
            "\n"@
        } else {
            " / "@
        }) + ranks_text(sq, n - 1)
    }
}

/// Every square.
pub const ALL_SQUARES: Bitboard = 0xffff_ffff_ffff_ffff;

/// The records of putting the piece `pc` on the empty square `s`.
pub open spec fn put_records(sq: Seq<u8>, pc: int, s: int) -> Seq<DirtyThreat> {
    emitted(sq, pc, true, s, true, ALL_SQUARES)
}

/// The records of taking the piece off the square `s`.
pub open spec fn remove_records(sq: Seq<u8>, s: int) -> Seq<DirtyThreat> {
    emitted(sq.update(s, 0), sq[s] as int, false, s, true, ALL_SQUARES)
}

/// The records of moving a piece to an empty square: lines that run over both
/// squares stay as they are.
pub open spec fn shift_records(sq: Seq<u8>, from: int, to: int) -> Seq<DirtyThreat> {
    let both = (1u64 << (from as u64)) | (1u64 << (to as u64));
    emitted(sq.update(from, 0), sq[from] as int, false, from, true, both) + emitted(
        sq.update(from, 0),
        sq[from] as int,
        true,
        to,
        true,
        both,
    )
}

/// The records of putting the piece `pc` in the place of the one on `s`.
pub open spec fn swap_records(sq: Seq<u8>, s: int, pc: int) -> Seq<DirtyThreat> {
    emitted(sq.update(s, 0), sq[s] as int, false, s, false, ALL_SQUARES) + emitted(
        sq.update(s, 0),
        pc,
        true,
        s,
        false,
        ALL_SQUARES,
    )
}

/// Where castling takes the king and the rook.
pub open spec fn castle_to(from: int, to: int, us: Color) -> (int, int) {
    let home = 56 * us.index();
    if to > from {
        (home + 6, home + 5)
    } else {
        (home + 2, home + 3)
    }
}

/// The square of the pawn that is captured en passant.
pub open spec fn passed_pawn(to: int, us: Color) -> int {
    if us == Color::White {
        to - 8
    } else {
        to + 8
    }
}

/// The piece that arrives: the one that moved, or what the pawn turns into.
pub open spec fn arriving(sq: Seq<u8>, m: RawMove, us: Color) -> u8 {
    match m.promotion_spec() {
        Some(role) => (8 * us.index() + role.code_spec()) as u8,
        None => sq[m.from_sq()],
    }
}

/// The move takes a piece of `us` to where it can go: onto an empty square or
/// onto a piece, past a pawn, or castling with an own rook.
pub open spec fn playable(sq: Seq<u8>, m: RawMove, us: Color) -> bool {
    let from = m.from_sq();
    let to = m.to_sq();
    &&& from != to
    &&& types::is_piece(sq[from] as int) && sq[from] as int / 8 == us.index()
    &&& m.kind_spec() == CASTLE ==> {
        let (kto, rto) = castle_to(from, to, us);
        &&& sq[from] == 8 * us.index() + KING
        &&& sq[to] == 8 * us.index() + ROOK
        &&& sq[kto] == 0 || kto == from || kto == to
        &&& sq[rto] == 0 || rto == from || rto == to
    }
    &&& m.kind_spec() == EN_PASSANT ==> {
        let cap = passed_pawn(to, us);
        &&& 0 <= cap < 64
        &&& cap != from
        &&& sq[to] == 0
        &&& sq[cap] == 8 * us.opposite().index() + PAWN
    }
}

/// The pieces after the move.
pub open spec fn played(sq: Seq<u8>, m: RawMove, us: Color) -> Seq<u8> {
    let from = m.from_sq();
    let to = m.to_sq();
    if m.kind_spec() == CASTLE {
        let (kto, rto) = castle_to(from, to, us);
        sq.update(from, 0).update(to, 0).update(kto, (8 * us.index() + KING) as u8).update(
            rto,
            (8 * us.index() + ROOK) as u8,
        )
    } else if m.kind_spec() == EN_PASSANT {
        sq.update(passed_pawn(to, us), 0).update(from, 0).update(to, sq[from])
    } else {
        sq.update(from, 0).update(to, arriving(sq, m, us))
    }
}

/// The pieces that the move changed.
pub open spec fn dirty_piece_of(sq: Seq<u8>, m: RawMove, us: Color) -> DirtyPiece {
    let from = m.from_sq();
    let to = m.to_sq();
    if m.kind_spec() == CASTLE {
        let (kto, rto) = castle_to(from, to, us);
        let rook = (8 * us.index() + ROOK) as u8;
        DirtyPiece {
            pc: sq[from],
            from: from as usize,
            to: kto as usize,
            remove_sq: to as usize,
            add_sq: rto as usize,
            remove_pc: rook,
            add_pc: rook,
        }
    } else if m.kind_spec() == EN_PASSANT {
        DirtyPiece {
            pc: sq[from],
            from: from as usize,
            to: to as usize,
            remove_sq: passed_pawn(to, us) as usize,
            add_sq: SQ_NONE,
            remove_pc: (8 * us.opposite().index() + PAWN) as u8,
            add_pc: NO_PIECE,
        }
    } else {
        let promotes = m.promotion_spec() is Some;
        let captures = sq[to] != 0;
        DirtyPiece {
            pc: sq[from],
            from: from as usize,
            to: if promotes {
                SQ_NONE
            } else {
                to as usize
            },
            remove_sq: if captures {
                to as usize
            } else {
                SQ_NONE
            },
            add_sq: if promotes {
                to as usize
            } else {
                SQ_NONE
            },
            remove_pc: if captures {
                sq[to]
            } else {
                NO_PIECE
            },
            add_pc: if promotes {
                arriving(sq, m, us)
            } else {
                NO_PIECE
            },
        }
    }
}

/// The attack records of the move, in the order in which the pieces change.
pub open spec fn move_records(sq: Seq<u8>, m: RawMove, us: Color) -> Seq<DirtyThreat> {
    let from = m.from_sq();
    let to = m.to_sq();
    if m.kind_spec() == CASTLE {
        let (kto, rto) = castle_to(from, to, us);
        let king = 8 * us.index() + KING;
        let rook = 8 * us.index() + ROOK;
        let s1 = sq.update(from, 0);
        let s2 = s1.update(to, 0);
        let s3 = s2.update(kto, king as u8);
        remove_records(sq, from) + remove_records(s1, to) + put_records(s2, king, kto)
            + put_records(s3, rook, rto)
    } else if m.kind_spec() == EN_PASSANT {
        let cap = passed_pawn(to, us);
        remove_records(sq, cap) + shift_records(sq.update(cap, 0), from, to)
    } else if sq[to] != 0 {
        remove_records(sq, from) + swap_records(
            sq.update(from, 0),
            to,
            arriving(sq, m, us) as int,
        )
    } else if sq[from] == arriving(sq, m, us) {
        shift_records(sq, from, to)
    } else {
        remove_records(sq, from) + put_records(
            sq.update(from, 0),
            arriving(sq, m, us) as int,
            to,
        )
    }
}

/// `r` holds the board after the move and everything that the move changed.
pub open spec fn describes(r: MoveDirties, sq: Seq<u8>, m: RawMove, us: Color) -> bool {
    &&& r.board.sq() == played(sq, m, us)
    &&& r.dirty_piece == dirty_piece_of(sq, m, us)
    &&& r.dirty_threats.list@ == bits::capped(move_records(sq, m, us), 96)
    &&& forall|c: int, s: int|
        0 <= c < 2 ==> #[trigger] bits::mem(r.dirty_pawn_pairs.before@[c], s) == (0 <= s < 64
            && sq[s] == 8 * c + PAWN)
    &&& forall|c: int, s: int|
        0 <= c < 2 ==> #[trigger] bits::mem(r.dirty_pawn_pairs.after@[c], s) == (0 <= s < 64
            && r.board.sq()[s] == 8 * c + PAWN)
}

/// The lowest square with the king of the colour `c`; 64 where there is none.
pub open spec fn king_of(sq: Seq<u8>, c: int) -> int {
    if exists|s: int| 0 <= s < 64 && #[trigger] sq[s] == 8 * c + 6 {
        choose|s: int|
            0 <= s < 64 && #[trigger] sq[s] == 8 * c + 6 && forall|t: int|
                0 <= t < s ==> #[trigger] sq[t] != 8 * c + 6
    } else {
        64
    }
}

/// The lowest king square is the one below which there is none.
pub proof fn lemma_king_of(sq: Seq<u8>, c: int, k: int)
    requires
        0 <= k < 64,
        sq[k] == 8 * c + 6,
        forall|t: int| 0 <= t < k ==> #[trigger] sq[t] != 8 * c + 6,
    ensures
        king_of(sq, c) == k,
{
    assert(exists|s: int|
        0 <= s < 64 && #[trigger] sq[s] == 8 * c + 6 && forall|t: int|
            0 <= t < s ==> #[trigger] sq[t] != 8 * c + 6);
}

/// A square holds the piece `pc`.
pub open spec fn is_code(pc: int) -> spec_fn(u8) -> bool {
    |v: u8| v == pc
}

/// The number of squares that hold the piece `pc`.
pub open spec fn count_of(sq: Seq<u8>, pc: int) -> nat {
    tally(sq, is_code(pc))
}

/// The value of the pieces of both colours that are neither pawns nor kings.
pub open spec fn non_pawn_value(sq: Seq<u8>) -> nat {
    781 * (count_of(sq, 2) + count_of(sq, 10)) + 825 * (count_of(sq, 3) + count_of(sq, 11)) + 1276
        * (count_of(sq, 4) + count_of(sq, 12)) + 2538 * (count_of(sq, 5) + count_of(sq, 13))
}

proof fn lemma_four_kinds(sq: Seq<u8>)
    requires
        sq.len() == 64,
    ensures
        forall|pc: int| #[trigger] count_of(sq, pc) <= 64,
{
    assert forall|pc: int| #[trigger] count_of(sq, pc) <= 64 by {
        lemma_tally(sq, is_code(pc), 0, 0);
    }
}

/// The pieces of both colours are all the pieces.
proof fn lemma_total(sq: Seq<u8>)
    requires
        valid_squares(sq),
    ensures
        count_at(sq, 0) + count_at(sq, 8) == tally(sq, |v: u8| v != 0),
        tally(sq, |v: u8| v != 0) <= 64,
{
    let w = where_piece(sq, |v: u8| counted(0, v));
    let b = where_piece(sq, |v: u8| counted(8, v));
    let all = where_piece(sq, |v: u8| v != 0);
    lemma_tally(sq, |v: u8| counted(0, v), 0, 0);
    lemma_tally(sq, |v: u8| counted(8, v), 0, 0);
    lemma_tally(sq, |v: u8| v != 0, 0, 0);
    assert(w.disjoint(b));
    vstd::set_lib::lemma_set_disjoint_lens(w, b);
    assert(w + b =~= all);
}

/// How each count changes with one square.
proof fn lemma_counts(sq: Seq<u8>, s: int, v: u8)
    requires
        valid_squares(sq),
        0 <= s < 64,
    ensures
        forall|pc: int| #[trigger]
            count_at(sq.update(s, v), pc) == count_at(sq, pc) + (if counted(pc, v) {
                1int
            } else {
                0
            }) - (if counted(pc, sq[s]) {
                1int
            } else {
                0
            }),
        forall|pc: int| #[trigger] count_at(sq, pc) <= 64,
        forall|pc: int| counted(pc, sq[s]) ==> #[trigger] count_at(sq, pc) >= 1,
{
    assert forall|pc: int| #[trigger]
        count_at(sq.update(s, v), pc) == count_at(sq, pc) + (if counted(pc, v) {
            1int
        } else {
            0
        }) - (if counted(pc, sq[s]) {
            1int
        } else {
            0
        }) by {
        lemma_tally(sq, |w: u8| counted(pc, w), s, v);
    }
    assert forall|pc: int| #[trigger] count_at(sq, pc) <= 64 by {
        lemma_tally(sq, |w: u8| counted(pc, w), s, v);
    }
    assert forall|pc: int| counted(pc, sq[s]) implies #[trigger] count_at(sq, pc) >= 1 by {
        lemma_tally(sq, |w: u8| counted(pc, w), s, v);
    }
}

// --- what a move does to the pieces -------------------------------------------------------------

/// A move other than castling and en passant takes the piece away and puts it, or what the pawn
/// turns into, where it goes; all else stays.
pub proof fn law_pieces_move(sq: Seq<u8>, m: RawMove, us: Color, s: int)
    requires
        sq.len() == 64,
        playable(sq, m, us),
        m.kind_spec() != CASTLE,
        m.kind_spec() != EN_PASSANT,
        0 <= s < 64,
    ensures
        ({
            let after = played(sq, m, us);
            &&& after.len() == 64
            &&& after[m.from_sq()] == 0
            &&& m.promotion_spec() is None ==> after[m.to_sq()] == sq[m.from_sq()]
            &&& m.promotion_spec() matches Some(role) ==> after[m.to_sq()] == 8 * us.index()
                + role.code_spec()
            &&& s != m.from_sq() && s != m.to_sq() ==> after[s] == sq[s]
        }),
{
}

/// The pawn that is captured en passant stands behind the square on which the capturing pawn
/// ends, as that side looks at it, and leaves the board; all else stays.
pub proof fn law_pawns_pass(sq: Seq<u8>, m: RawMove, us: Color, s: int)
    requires
        sq.len() == 64,
        playable(sq, m, us),
        m.kind_spec() == EN_PASSANT,
        0 <= s < 64,
    ensures
        ({
            let after = played(sq, m, us);
            let cap = passed_pawn(m.to_sq(), us);
            &&& cap % 8 == m.to_sq() % 8
            &&& us == Color::White ==> cap / 8 == m.to_sq() / 8 - 1
            &&& us == Color::Black ==> cap / 8 == m.to_sq() / 8 + 1
            &&& after[cap] == 0
            &&& after[m.from_sq()] == 0
            &&& after[m.to_sq()] == sq[m.from_sq()]
            &&& s != m.from_sq() && s != m.to_sq() && s != cap ==> after[s] == sq[s]
        }),
{
}

/// Castling takes the king to the g-file or the c-file of its home rank, and the rook over it to
/// the next file; where they stood is empty unless one of them stands there now, and all else stays.
pub proof fn law_castling(sq: Seq<u8>, m: RawMove, us: Color, s: int)
    requires
        sq.len() == 64,
        playable(sq, m, us),
        m.kind_spec() == CASTLE,
        0 <= s < 64,
    ensures
        ({
            let after = played(sq, m, us);
            let (king, rook) = castle_to(m.from_sq(), m.to_sq(), us);
            &&& king / 8 == rook / 8 == if us == Color::White {
                0int
            } else {
                7
            }
            &&& m.to_sq() > m.from_sq() ==> king % 8 == 6 && rook == king - 1
            &&& m.to_sq() < m.from_sq() ==> king % 8 == 2 && rook == king + 1
            &&& after[king] == sq[m.from_sq()]
            &&& after[rook] == sq[m.to_sq()]
            &&& s == m.from_sq() || s == m.to_sq() ==> s == king || s == rook || after[s] == 0
            &&& s != m.from_sq() && s != m.to_sq() && s != king && s != rook ==> after[s] == sq[s]
        }),
{
}

} // verus!
