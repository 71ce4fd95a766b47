//! The hand-written evaluation.
//!
//! A position is worth the sum of independent terms, each a midgame and an
//! endgame value, blended by how much material is left. Every term is what
//! White has of it less what Black has.
pub mod activity;
pub mod effects;
pub mod evaluator;
pub mod king;
pub mod material;
pub mod mirror;
pub mod mobility;
pub mod params;
pub mod passed_pawns;
pub mod pawns;
pub mod phase;
pub mod pieces;
pub mod tables;
pub mod threats;
pub mod weights;

pub use evaluator::{EvalParts, Evaluator};
pub use params::{EvalParams, PIECE_VALUES};

use vstd::prelude::*;
use crate::arith;
use crate::bits;
use crate::board::Placement;
use crate::nnue::types::Color;
use crate::types::Role;

verus! {

/// A midgame and an endgame value.
#[derive(Copy, Clone, Debug, PartialEq, Eq, Structural)]
pub struct Score {
    pub mg: i32,
    pub eg: i32,
}

/// A value that a `Score` can hold.
pub open spec fn fits(x: int) -> bool {
    i32::MIN <= x <= i32::MAX
}

impl Score {
    pub fn new(mg: i32, eg: i32) -> (r: Score)
        ensures
            r == (Score { mg, eg }),
    {
        Score { mg, eg }
    }

    pub fn mg_only(mg: i32) -> (r: Score)
        ensures
            r == (Score { mg, eg: 0 }),
    {
        Score { mg, eg: 0 }
    }

    pub fn eg_only(eg: i32) -> (r: Score)
        ensures
            r == (Score { mg: 0, eg }),
    {
        Score { mg: 0, eg }
    }

    pub fn zero() -> (r: Score)
        ensures
            r == (Score { mg: 0, eg: 0 }),
    {
        Score { mg: 0, eg: 0 }
    }

    /// Twice the value.
    pub fn double(self) -> (r: Score)
        requires
            fits(2 * self.mg),
            fits(2 * self.eg),
        ensures
            r.mg == 2 * self.mg,
            r.eg == 2 * self.eg,
    {
        Score { mg: self.mg * 2, eg: self.eg * 2 }
    }
}

impl Default for Score {
    fn default() -> (r: Self)
        ensures
            r == (Score { mg: 0, eg: 0 }),
    {
        Score::zero()
    }
}

impl core::ops::Add for Score {
    type Output = Score;

    fn add(self, rhs: Score) -> (r: Score) {
        Score { mg: self.mg + rhs.mg, eg: self.eg + rhs.eg }
    }
}

impl vstd::std_specs::ops::AddSpecImpl for Score {
    open spec fn obeys_add_spec() -> bool {
        true
    }

    open spec fn add_req(self, rhs: Score) -> bool {
        fits(self.mg + rhs.mg) && fits(self.eg + rhs.eg)
    }

    open spec fn add_spec(self, rhs: Score) -> Score {
        Score { mg: (self.mg + rhs.mg) as i32, eg: (self.eg + rhs.eg) as i32 }
    }
}

impl core::ops::Sub for Score {
    type Output = Score;

    fn sub(self, rhs: Score) -> (r: Score) {
        Score { mg: self.mg - rhs.mg, eg: self.eg - rhs.eg }
    }
}

impl vstd::std_specs::ops::SubSpecImpl for Score {
    open spec fn obeys_sub_spec() -> bool {
        true
    }

    open spec fn sub_req(self, rhs: Score) -> bool {
        fits(self.mg - rhs.mg) && fits(self.eg - rhs.eg)
    }

    open spec fn sub_spec(self, rhs: Score) -> Score {
        Score { mg: (self.mg - rhs.mg) as i32, eg: (self.eg - rhs.eg) as i32 }
    }
}

impl core::ops::Neg for Score {
    type Output = Score;

    fn neg(self) -> (r: Score) {
        Score { mg: -self.mg, eg: -self.eg }
    }
}

impl vstd::std_specs::ops::NegSpecImpl for Score {
    open spec fn obeys_neg_spec() -> bool {
        true
    }

    open spec fn neg_req(self) -> bool {
        fits(-self.mg) && fits(-self.eg)
    }

    open spec fn neg_spec(self) -> Score {
        Score { mg: (-self.mg) as i32, eg: (-self.eg) as i32 }
    }
}

impl core::ops::Mul<i32> for Score {
    type Output = Score;

    fn mul(self, rhs: i32) -> (r: Score) {
        Score { mg: self.mg * rhs, eg: self.eg * rhs }
    }
}

impl vstd::std_specs::ops::MulSpecImpl<i32> for Score {
    open spec fn obeys_mul_spec() -> bool {
        true
    }

    open spec fn mul_req(self, rhs: i32) -> bool {
        fits(self.mg * rhs) && fits(self.eg * rhs)
    }

    open spec fn mul_spec(self, rhs: i32) -> Score {
        Score { mg: (self.mg * rhs) as i32, eg: (self.eg * rhs) as i32 }
    }
}

// --- the board from one side ----------------------------------------------------------------

/// The squares of the pieces of a kind and a colour.
pub open spec fn word(b: Placement, c: Color, role: Role) -> u64 {
    b.kind(role) & b.side(c)
}

/// How many pieces of a kind a side has.
pub open spec fn number(b: Placement, c: Color, role: Role) -> int {
    bits::ones(word(b, c, role)) as int
}

/// A square as the side sees it: Black looks at the board turned upside down.
pub open spec fn turned(c: Color, s: int) -> int {
    match c {
        Color::White => s,
        Color::Black => 56 - 8 * (s / 8) + s % 8,
    }
}

/// The rank of a square as the side counts, 0 for its own first rank.
pub open spec fn level(c: Color, s: int) -> int {
    match c {
        Color::White => s / 8,
        Color::Black => 7 - s / 8,
    }
}

/// The square in front of a piece.
pub open spec fn front(c: Color, s: int) -> int {
    match c {
        Color::White => s + 8,
        Color::Black => s - 8,
    }
}

/// Two squares are on neighbouring files.
pub open spec fn beside(s: int, t: int) -> bool {
    t % 8 - s % 8 == 1 || t % 8 - s % 8 == -1
}

/// How many king's steps two squares are apart.
pub open spec fn distance(a: int, b: int) -> int {
    let df = apart(a % 8, b % 8);
    let dr = apart(a / 8, b / 8);
    if df > dr {
        df
    } else {
        dr
    }
}

/// How far two numbers are apart.
pub open spec fn apart(x: int, y: int) -> int {
    if x < y {
        y - x
    } else {
        x - y
    }
}

/// How far two numbers are apart.
pub fn gap(x: usize, y: usize) -> (r: usize)
    ensures
        r == apart(x as int, y as int),
{
    if x < y {
        y - x
    } else {
        x - y
    }
}

/// `x` where a condition holds, 0 elsewhere.
pub open spec fn where_so(cond: bool, x: i32) -> int {
    if cond {
        x as int
    } else {
        0
    }
}

/// How many pieces of a kind a side can have.
pub proof fn lemma_number(b: Placement, c: Color, role: Role)
    requires
        b.wf(),
    ensures
        0 <= number(b, c, role) <= 16,
{
    broadcast use bits::group_mem;

    bits::lemma_ones_mono(word(b, c, role), b.side(c));
}

/// How many pieces a side can have beside its pawns.
pub proof fn lemma_numbers(b: Placement, c: Color)
    requires
        b.wf(),
    ensures
        number(b, c, Role::Knight) + number(b, c, Role::Bishop) + number(b, c, Role::Rook) + number(
            b,
            c,
            Role::Queen,
        ) + number(b, c, Role::King) <= 16,
{
    broadcast use bits::group_mem;

    let n = word(b, c, Role::Knight);
    let i = word(b, c, Role::Bishop);
    let r = word(b, c, Role::Rook);
    let q = word(b, c, Role::Queen);
    let k = word(b, c, Role::King);
    assert forall|s: int| 0 <= s < 64 implies {
        &&& !(#[trigger] bits::mem(n, s) && bits::mem(i, s))
        &&& !(bits::mem(n | i, s) && bits::mem(r, s))
        &&& !(bits::mem(n | i | r, s) && bits::mem(q, s))
        &&& !(bits::mem(n | i | r | q, s) && bits::mem(k, s))
    } by {
        assert(b.role_code(s) == b.role_code(s));
    }
    lemma_apart(n, i);
    lemma_apart(n | i, r);
    lemma_apart(n | i | r, q);
    lemma_apart(n | i | r | q, k);
    bits::lemma_ones_mono(n | i | r | q | k, b.side(c));
}

proof fn lemma_apart(a: u64, b: u64)
    requires
        forall|s: int| 0 <= s < 64 ==> !(#[trigger] bits::mem(a, s) && bits::mem(b, s)),
    ensures
        bits::ones(a | b) == bits::ones(a) + bits::ones(b),
{
    bits::lemma_ones_disjoint(a, b);
}

// --- the blend ------------------------------------------------------------------------------

/// The blend of a midgame and an endgame value at a phase between 0, the
/// endgame, and `max`, the opening.
pub open spec fn blend_at(mg: int, eg: int, phase: int, max: int) -> int {
    let m = if max < 1 {
        1
    } else {
        max
    };
    arith::trunc_div(mg * phase + eg * (m - phase), m)
}

/// The blend and what it is made from fit into thirty-two bits.
pub open spec fn blendable(mg: int, eg: int, phase: int, max: int) -> bool {
    let m = if max < 1 {
        1
    } else {
        max
    };
    &&& fits(m - phase)
    &&& fits(mg * phase)
    &&& fits(eg * (m - phase))
    &&& fits(mg * phase + eg * (m - phase))
}

/// A score blended at a phase between 0 and 24.
pub fn tapered(score: Score, phase: i32) -> (r: i32)
    requires
        blendable(score.mg as int, score.eg as int, phase as int, 24),
    ensures
        r == blend_at(score.mg as int, score.eg as int, phase as int, 24),
{
    tapered_at(score, phase, 24)
}

/// A score blended at a phase between 0 and `phase_max`.
pub fn tapered_at(score: Score, phase: i32, phase_max: i32) -> (r: i32)
    requires
        blendable(score.mg as int, score.eg as int, phase as int, phase_max as int),
    ensures
        r == blend_at(score.mg as int, score.eg as int, phase as int, phase_max as int),
{
    let max: i32 = if phase_max < 1 {
        1
    } else {
        phase_max
    };
    (score.mg * phase + score.eg * (max - phase)) / max
}

/// The blend is the midgame value in the opening and the endgame value in the
/// endgame.
pub proof fn law_blend_ends(mg: int, eg: int, max: int)
    requires
        1 <= max,
    ensures
        blend_at(mg, eg, max, max) == mg,
        blend_at(mg, eg, 0, max) == eg,
{
    assert(mg * max + eg * (max - max) == mg * max) by (nonlinear_arith);
    assert(mg * 0 + eg * (max - 0) == eg * max) by (nonlinear_arith);
    lemma_exact(mg, max);
    lemma_exact(eg, max);
}

proof fn lemma_exact(x: int, m: int)
    requires
        1 <= m,
    ensures
        arith::trunc_div(x * m, m) == x,
{
    if x >= 0 {
        assert(x * m >= 0) by (nonlinear_arith)
            requires
                x >= 0,
                m >= 1,
        ;
        vstd::arithmetic::div_mod::lemma_div_by_multiple(x, m);
    } else {
        assert(x * m < 0) by (nonlinear_arith)
            requires
                x < 0,
                m >= 1,
        ;
        assert(-(x * m) == (-x) * m) by (nonlinear_arith);
        vstd::arithmetic::div_mod::lemma_div_by_multiple(-x, m);
    }
}

} // verus!
