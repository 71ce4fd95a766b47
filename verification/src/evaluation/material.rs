//! What the pieces are worth.
use vstd::prelude::*;
use crate::arith;
use crate::bits;
use crate::board::Placement;
use crate::evaluation;
use crate::evaluation::params;
use crate::evaluation::params::EvalParams;
use crate::evaluation::Score;
use crate::nnue::types::Color;
use crate::types::Role;

verus! {

/// What the pieces of a kind are worth together.
pub open spec fn worth(b: Placement, c: Color, role: Role, p: EvalParams) -> int {
    evaluation::number(b, c, role) * params::value_of(p, role)
}

/// What the pieces of a side are worth, with both bishops worth more than two.
pub open spec fn half(b: Placement, c: Color, p: EvalParams, f: int) -> int {
    worth(b, c, Role::Pawn, p) + worth(b, c, Role::Knight, p) + worth(b, c, Role::Bishop, p)
        + worth(b, c, Role::Rook, p) + worth(b, c, Role::Queen, p) + (if evaluation::number(
        b,
        c,
        Role::Bishop,
    ) >= 2 {
        p.bishop_pair@[f] as int
    } else {
        0
    })
}

/// What the pieces of a kind are worth together.
fn count_up(board: &Placement, c: Color, role: Role, p: &EvalParams) -> (r: i32)
    requires
        p.wf(),
    ensures
        r == worth(*board, c, role, *p),
        -262144 <= r <= 262144,
{
    let n: i32 = bits::count(board.by_piece(c, role)) as i32;
    let v: i32 = p.piece_value(role);
    proof {
        arith::lemma_product(n as int, v as int, 64, 4096);
    }
    n * v
}

/// What a side has.
fn side(board: &Placement, c: Color, p: &EvalParams) -> (r: Score)
    requires
        p.wf(),
    ensures
        r.mg == half(*board, c, *p, 0),
        r.eg == half(*board, c, *p, 1),
        -2000000 <= r.mg <= 2000000,
        -2000000 <= r.eg <= 2000000,
{
    let v: i32 = count_up(board, c, Role::Pawn, p) + count_up(board, c, Role::Knight, p) + count_up(
        board,
        c,
        Role::Bishop,
        p,
    ) + count_up(board, c, Role::Rook, p) + count_up(board, c, Role::Queen, p);
    if bits::count(board.by_piece(c, Role::Bishop)) >= 2 {
        Score::new(v, v) + p.bishop_pair_score()
    } else {
        Score::new(v, v)
    }
}

/// What White's pieces are worth more than Black's.
pub fn evaluate_material(board: &Placement, p: &EvalParams) -> (r: Score)
    requires
        p.wf(),
    ensures
        r.mg == half(*board, Color::White, *p, 0) - half(*board, Color::Black, *p, 0),
        r.eg == half(*board, Color::White, *p, 1) - half(*board, Color::Black, *p, 1),
{
    side(board, Color::White, p) - side(board, Color::Black, p)
}

/// The size of what a side has on a board.
pub proof fn lemma_size(b: Placement, c: Color, p: EvalParams, f: int)
    requires
        b.wf(),
        p.wf(),
        0 <= f < 2,
    ensures
        -(81 * 4096) <= half(b, c, p, f) <= 81 * 4096,
{
    evaluation::lemma_number(b, c, Role::Pawn);
    evaluation::lemma_number(b, c, Role::Knight);
    evaluation::lemma_number(b, c, Role::Bishop);
    evaluation::lemma_number(b, c, Role::Rook);
    evaluation::lemma_number(b, c, Role::Queen);
    lemma_worth(b, c, Role::Pawn, p);
    lemma_worth(b, c, Role::Knight, p);
    lemma_worth(b, c, Role::Bishop, p);
    lemma_worth(b, c, Role::Rook, p);
    lemma_worth(b, c, Role::Queen, p);
    assert(params::pair_at_most(p.bishop_pair, 4096));
}

proof fn lemma_worth(b: Placement, c: Color, role: Role, p: EvalParams)
    requires
        p.wf(),
        0 <= evaluation::number(b, c, role) <= 16,
    ensures
        -(16 * 4096) <= worth(b, c, role, p) <= 16 * 4096,
{
    assert(params::at_most(params::value_of(p, role) as i32, 4096));
    arith::lemma_product(evaluation::number(b, c, role), params::value_of(p, role), 16, 4096);
}

} // verus!
