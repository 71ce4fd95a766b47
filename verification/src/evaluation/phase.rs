//! How far the game has come: from `phase_max` in the opening down to 0 in the
//! endgame, by the pieces that are left.
use vstd::prelude::*;
use crate::arith;
use crate::bits;
use crate::board::Placement;
use crate::evaluation;
use crate::evaluation::params::EvalParams;
use crate::evaluation::tapered;
use crate::evaluation::Score;
use crate::nnue::types::Color;
use crate::types::Role;

verus! {

/// The phase of the starting position.
pub const PHASE_MAX: i32 = 24;

/// How many pieces of a kind both sides have.
pub open spec fn number_of(b: Placement, role: Role) -> int {
    evaluation::number(b, Color::White, role) + evaluation::number(b, Color::Black, role)
}

/// The phase of a board.
pub open spec fn phase_of(b: Placement, p: EvalParams) -> int {
    arith::within(
        number_of(b, Role::Queen) * p.phase_queen + number_of(b, Role::Rook) * p.phase_rook
            + number_of(b, Role::Bishop) * p.phase_bishop + number_of(b, Role::Knight)
            * p.phase_knight,
        0,
        p.phase_max as int,
    )
}

/// The pieces of a kind of both sides, times `w`.
fn weighed(board: &Placement, role: Role, w: i32) -> (r: i32)
    requires
        -4096 <= w <= 4096,
    ensures
        r == number_of(*board, role) * w,
        -524288 <= r <= 524288,
{
    let white: u64 = board.by_piece(Color::White, role);
    let black: u64 = board.by_piece(Color::Black, role);
    let n: i32 = bits::count(white) as i32 + bits::count(black) as i32;
    proof {
        arith::lemma_product(n as int, w as int, 128, 4096);
    }
    n * w
}

/// The phase of a board.
pub fn game_phase(board: &Placement, p: &EvalParams) -> (r: i32)
    requires
        p.wf(),
    ensures
        r == phase_of(*board, *p),
        0 <= r <= p.phase_max,
{
    let q: i32 = weighed(board, Role::Queen, p.phase_queen);
    let r: i32 = weighed(board, Role::Rook, p.phase_rook);
    let b: i32 = weighed(board, Role::Bishop, p.phase_bishop);
    let n: i32 = weighed(board, Role::Knight, p.phase_knight);
    arith::clamp_i32(q + r + b + n, 0, p.phase_max)
}

/// A score blended at a phase between 0 and 24.
pub fn blend(score: Score, phase: i32) -> (r: i32)
    requires
        evaluation::blendable(score.mg as int, score.eg as int, phase as int, 24),
    ensures
        r == evaluation::blend_at(score.mg as int, score.eg as int, phase as int, 24),
{
    tapered(score, phase)
}

} // verus!
