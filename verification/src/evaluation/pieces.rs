//! What the squares are worth on which the pieces stand.
use vstd::prelude::*;
use crate::board::Placement;
use crate::bits;
use crate::evaluation;
use crate::evaluation::params;
use crate::evaluation::params::EvalParams;
use crate::evaluation::Score;
use crate::nnue::attacks::pop_lsb;
use crate::nnue::types::Color;
use crate::sums;
use crate::types::Role;

verus! {

/// What a square is worth to a piece.
pub open spec fn worth(c: Color, role: Role, p: EvalParams, f: int) -> spec_fn(int) -> int {
    |s: int| p.pst.tables@[role.code_spec() as int]@[f]@[evaluation::turned(c, s)] as int
}

/// What the squares of the pieces of a kind are worth.
pub open spec fn part(b: Placement, c: Color, role: Role, p: EvalParams, f: int) -> int {
    sums::over(evaluation::word(b, c, role), worth(c, role, p, f))
}

/// What the squares of a side's pieces are worth.
pub open spec fn half(b: Placement, c: Color, p: EvalParams, f: int) -> int {
    part(b, c, Role::Pawn, p, f) + part(b, c, Role::Knight, p, f) + part(b, c, Role::Bishop, p, f)
        + part(b, c, Role::Rook, p, f) + part(b, c, Role::Queen, p, f) + part(
        b,
        c,
        Role::King,
        p,
        f,
    )
}

/// The place of a square in the tables: Black looks at the board from the other
/// side.
pub fn table_index(s: usize, c: Color) -> (r: usize)
    requires
        s < 64,
    ensures
        r == evaluation::turned(c, s as int),
        r < 64,
{
    match c {
        Color::White => s,
        Color::Black => 56 - 8 * (s / 8) + s % 8,
    }
}

/// The size of what a square is worth.
proof fn lemma_worth(w: u64, c: Color, role: Role, p: EvalParams, f: int)
    requires
        p.wf(),
        0 <= f < 2,
    ensures
        -(4096 * bits::ones(w)) <= sums::over(w, worth(c, role, p, f)) <= 4096 * bits::ones(w),
        bits::ones(w) <= 64,
        forall|s: int| 0 <= s < 64 ==> -4096 <= #[trigger] worth(c, role, p, f)(s) <= 4096,
{
    let k = role.code_spec() as int;
    assert forall|s: int| 0 <= s < 64 implies -4096 <= #[trigger] worth(c, role, p, f)(s) <= 4096 by {
        assert(params::at_most(p.pst.tables@[k]@[f]@[evaluation::turned(c, s)], 4096));
    }
    assert forall|s: int| #[trigger] bits::mem(w, s) implies -4096 <= worth(c, role, p, f)(s)
        <= 4096 by {}
    sums::lemma_over_bound(w, worth(c, role, p, f), 4096);
    bits::lemma_ones_set(w);
}

/// What the squares of the pieces of a kind are worth.
fn add_up(board: &Placement, c: Color, role: Role, p: &EvalParams) -> (r: Score)
    requires
        p.wf(),
    ensures
        r.mg == part(*board, c, role, *p, 0),
        r.eg == part(*board, c, role, *p, 1),
        -262144 <= r.mg <= 262144,
        -262144 <= r.eg <= 262144,
{
    let ghost w = evaluation::word(*board, c, role);
    let ghost fm = worth(c, role, *p, 0);
    let ghost fe = worth(c, role, *p, 1);
    let mut bb: u64 = board.by_piece(c, role);
    let mut mg: i32 = 0;
    let mut eg: i32 = 0;
    proof {
        lemma_worth(w, c, role, *p, 0);
        lemma_worth(w, c, role, *p, 1);
    }
    while bb != 0
        invariant
            p.wf(),
            fm == worth(c, role, *p, 0),
            fe == worth(c, role, *p, 1),
            mg + sums::over(bb, fm) == sums::over(w, fm),
            eg + sums::over(bb, fe) == sums::over(w, fe),
            -262144 <= sums::over(w, fm) <= 262144,
            -262144 <= sums::over(w, fe) <= 262144,
        decreases bb,
    {
        proof {
            sums::lemma_over_step(bb, fm);
            sums::lemma_over_step(bb, fe);
            lemma_worth(bb, c, role, *p, 0);
            lemma_worth(bb, c, role, *p, 1);
            lemma_worth(bits::rest(bb), c, role, *p, 0);
            lemma_worth(bits::rest(bb), c, role, *p, 1);
        }
        let s: usize = pop_lsb(&mut bb);
        let i: usize = table_index(s, c);
        mg = mg + p.pst_value(role, 0, i);
        eg = eg + p.pst_value(role, 1, i);
    }
    proof {
        sums::lemma_over_none(fm);
        sums::lemma_over_none(fe);
    }
    Score::new(mg, eg)
}

/// What the squares of a side's pieces are worth.
fn side(board: &Placement, c: Color, p: &EvalParams) -> (r: Score)
    requires
        p.wf(),
    ensures
        r.mg == half(*board, c, *p, 0),
        r.eg == half(*board, c, *p, 1),
        -2000000 <= r.mg <= 2000000,
        -2000000 <= r.eg <= 2000000,
{
    add_up(board, c, Role::Pawn, p) + add_up(board, c, Role::Knight, p) + add_up(
        board,
        c,
        Role::Bishop,
        p,
    ) + add_up(board, c, Role::Rook, p) + add_up(board, c, Role::Queen, p) + add_up(
        board,
        c,
        Role::King,
        p,
    )
}

/// What the squares of White's pieces are worth more than those of Black's.
pub fn evaluate_pst(board: &Placement, p: &EvalParams) -> (r: Score)
    requires
        p.wf(),
    ensures
        r.mg == half(*board, Color::White, *p, 0) - half(*board, Color::Black, *p, 0),
        r.eg == half(*board, Color::White, *p, 1) - half(*board, Color::Black, *p, 1),
{
    side(board, Color::White, p) - side(board, Color::Black, p)
}

/// The size of what a side has on a board.
pub proof fn lemma_size(b: Placement, c: Color, p: EvalParams, f: int)
    requires
        b.wf(),
        p.wf(),
        0 <= f < 2,
    ensures
        -(96 * 4096) <= half(b, c, p, f) <= 96 * 4096,
{
    lemma_part(b, c, Role::Pawn, p, f);
    lemma_part(b, c, Role::Knight, p, f);
    lemma_part(b, c, Role::Bishop, p, f);
    lemma_part(b, c, Role::Rook, p, f);
    lemma_part(b, c, Role::Queen, p, f);
    lemma_part(b, c, Role::King, p, f);
}

proof fn lemma_part(b: Placement, c: Color, role: Role, p: EvalParams, f: int)
    requires
        b.wf(),
        p.wf(),
        0 <= f < 2,
    ensures
        -(16 * 4096) <= part(b, c, role, p, f) <= 16 * 4096,
{
    evaluation::lemma_number(b, c, role);
    lemma_worth(evaluation::word(b, c, role), c, role, p, f);
}

} // verus!
