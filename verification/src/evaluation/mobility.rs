//! How many squares the pieces can go to.
use vstd::prelude::*;
use crate::arith;
use crate::bits;
use crate::board::Placement;
use crate::evaluation;
use crate::evaluation::params;
use crate::evaluation::params::EvalParams;
use crate::evaluation::pawns::PawnInfo;
use crate::evaluation::Score;
use crate::nnue::attacks;
use crate::nnue::attacks::pop_lsb;
use crate::nnue::types::Color;
use crate::sums;
use crate::types::Role;

verus! {

/// A piece of a kind on `s` attacks `t`.
pub open spec fn aims(b: Placement, role: Role, s: int, t: int) -> bool {
    attacks::attacks(role.code_spec() as int, s, t, b.white | b.black)
}

/// A piece of a side on `s` can go to `t`: no piece of its own stands there, and
/// unless it is a rook or a queen no enemy pawn attacks the square.
pub open spec fn usable(b: Placement, info: PawnInfo, c: Color, role: Role, s: int) -> spec_fn(
    int,
) -> bool {
    |t: int|
        aims(b, role, s, t) && !bits::mem(b.side(c), t) && (role == Role::Rook || role
            == Role::Queen || !bits::mem(info.hits(c.opposite()), t))
}

/// What the squares that a piece can go to are worth.
pub open spec fn worth(
    b: Placement,
    info: PawnInfo,
    c: Color,
    role: Role,
    p: EvalParams,
    f: int,
) -> spec_fn(int) -> int {
    |s: int|
        sums::how_many(usable(b, info, c, role, s)) * p.mobility@[role.code_spec() as int]@[f]
}

/// What the mobility of the pieces of a kind is worth.
pub open spec fn part(
    b: Placement,
    info: PawnInfo,
    c: Color,
    role: Role,
    p: EvalParams,
    f: int,
) -> int {
    sums::over(evaluation::word(b, c, role), worth(b, info, c, role, p, f))
}

/// What the mobility of a side is worth.
pub open spec fn half(b: Placement, info: PawnInfo, c: Color, p: EvalParams, f: int) -> int {
    part(b, info, c, Role::Knight, p, f) + part(b, info, c, Role::Bishop, p, f) + part(
        b,
        info,
        c,
        Role::Rook,
        p,
        f,
    ) + part(b, info, c, Role::Queen, p, f) + part(b, info, c, Role::King, p, f)
}

/// The squares that a piece of a kind attacks; none for pawns.
pub fn attacks_for(role: Role, s: usize, occupied: u64) -> (r: u64)
    requires
        s < 64,
    ensures
        forall|t: int| #[trigger]
            bits::mem(r, t) == attacks::attacks(role.code_spec() as int, s as int, t, occupied),
{
    attacks::attacks_bb(role.code(), s, occupied)
}

/// The squares that the pieces of a kind attack.
pub fn attacked_by(board: &Placement, c: Color, role: Role) -> (r: u64)
    ensures
        forall|t: int| #[trigger] bits::mem(r, t) == hit_by(*board, c, role, t),
{
    broadcast use bits::group_mem;

    let occupied: u64 = board.occupied();
    let w: u64 = board.by_piece(c, role);
    let mut bb: u64 = w;
    let mut out: u64 = 0;
    while bb != 0
        invariant
            w == evaluation::word(*board, c, role),
            occupied == board.white | board.black,
            forall|s: int| #[trigger] bits::mem(bb, s) ==> bits::mem(w, s),
            forall|t: int| #[trigger]
                bits::mem(out, t) == (exists|s: int|
                    bits::mem(w, s) && !bits::mem(bb, s) && #[trigger] aims(*board, role, s, t)),
        decreases bb,
    {
        broadcast use bits::group_mem;

        let ghost before = bb;
        let ghost had = out;
        let s: usize = pop_lsb(&mut bb);
        let a: u64 = attacks_for(role, s, occupied);
        out = out | a;
        proof {
            assert forall|t: int| #[trigger] bits::mem(out, t) == (exists|q: int|
                bits::mem(w, q) && !bits::mem(bb, q) && #[trigger] aims(*board, role, q, t)) by {
                assert(bits::mem(a, t) == aims(*board, role, s as int, t));
                assert(bits::mem(out, t) == (bits::mem(had, t) || bits::mem(a, t)));
                if bits::mem(had, t) {
                    let q = choose|q: int|
                        bits::mem(w, q) && !bits::mem(before, q) && #[trigger] aims(
                            *board,
                            role,
                            q,
                            t,
                        );
                    assert(!bits::mem(bb, q));
                }
                if exists|q: int|
                    bits::mem(w, q) && !bits::mem(bb, q) && #[trigger] aims(*board, role, q, t) {
                    let q = choose|q: int|
                        bits::mem(w, q) && !bits::mem(bb, q) && #[trigger] aims(*board, role, q, t);
                    if q != s {
                        assert(!bits::mem(before, q));
                    }
                }
            }
        }
    }
    proof {
        assert forall|t: int| #[trigger] bits::mem(out, t) == hit_by(*board, c, role, t) by {
            if hit_by(*board, c, role, t) {
                let q = choose|q: int|
                    bits::mem(evaluation::word(*board, c, role), q) && #[trigger] aims(
                        *board,
                        role,
                        q,
                        t,
                    );
                assert(!bits::mem(bb, q));
            }
        }
    }
    out
}

/// A piece of a kind attacks `t`.
pub open spec fn hit_by(b: Placement, c: Color, role: Role, t: int) -> bool {
    exists|s: int|
        bits::mem(evaluation::word(b, c, role), s) && #[trigger] aims(b, role, s, t)
}

/// How many squares a piece can go to.
fn usable_count(board: &Placement, info: &PawnInfo, c: Color, role: Role, s: usize) -> (r: i32)
    requires
        s < 64,
    ensures
        r == sums::how_many(usable(*board, *info, c, role, s as int)),
        0 <= r <= 64,
{
    broadcast use bits::group_mem;

    let occupied: u64 = board.occupied();
    let mut w: u64 = attacks_for(role, s, occupied) & !board.by_color(c);
    let free: bool = match role {
        Role::Rook => true,
        Role::Queen => true,
        _ => false,
    };
    if !free {
        w = w & !info.pawn_attacks_of(c.other());
    }
    proof {
        let u = usable(*board, *info, c, role, s as int);
        assert forall|t: int| 0 <= t < 64 implies #[trigger] bits::mem(w, t) == u(t) by {}
        sums::lemma_how_many(w, u);
    }
    bits::count(w) as i32
}

/// The size of what mobility is worth.
proof fn lemma_worth(
    w: u64,
    b: Placement,
    info: PawnInfo,
    c: Color,
    role: Role,
    p: EvalParams,
    f: int,
)
    requires
        p.wf(),
        0 <= f < 2,
    ensures
        -(262144 * bits::ones(w)) <= sums::over(w, worth(b, info, c, role, p, f)) <= 262144
            * bits::ones(w),
        bits::ones(w) <= 64,
        forall|s: int| -262144 <= #[trigger] worth(b, info, c, role, p, f)(s) <= 262144,
{
    let k = role.code_spec() as int;
    assert(params::pair_at_most(p.mobility@[k], 4096));
    assert forall|s: int| -262144 <= #[trigger] worth(b, info, c, role, p, f)(s) <= 262144 by {
        sums::lemma_how_many_range(usable(b, info, c, role, s));
        arith::lemma_product(
            sums::how_many(usable(b, info, c, role, s)),
            p.mobility@[k]@[f] as int,
            64,
            4096,
        );
    }
    assert forall|s: int| #[trigger] bits::mem(w, s) implies -262144 <= worth(
        b,
        info,
        c,
        role,
        p,
        f,
    )(s) <= 262144 by {}
    sums::lemma_over_bound(w, worth(b, info, c, role, p, f), 262144);
    bits::lemma_ones_set(w);
}

/// What the mobility of the pieces of a kind is worth.
fn add_up(board: &Placement, info: &PawnInfo, c: Color, role: Role, p: &EvalParams) -> (r: Score)
    requires
        p.wf(),
    ensures
        r.mg == part(*board, *info, c, role, *p, 0),
        r.eg == part(*board, *info, c, role, *p, 1),
        -16777216 <= r.mg <= 16777216,
        -16777216 <= r.eg <= 16777216,
{
    let ghost w = evaluation::word(*board, c, role);
    let ghost fm = worth(*board, *info, c, role, *p, 0);
    let ghost fe = worth(*board, *info, c, role, *p, 1);
    let (wm, we) = p.mobility_weight(role);
    let mut bb: u64 = board.by_piece(c, role);
    let mut mg: i32 = 0;
    let mut eg: i32 = 0;
    proof {
        lemma_worth(w, *board, *info, c, role, *p, 0);
        lemma_worth(w, *board, *info, c, role, *p, 1);
        assert(params::pair_at_most(p.mobility@[role.code_spec() as int], 4096));
    }
    while bb != 0
        invariant
            p.wf(),
            wm == p.mobility@[role.code_spec() as int]@[0],
            we == p.mobility@[role.code_spec() as int]@[1],
            -4096 <= wm <= 4096,
            -4096 <= we <= 4096,
            fm == worth(*board, *info, c, role, *p, 0),
            fe == worth(*board, *info, c, role, *p, 1),
            mg + sums::over(bb, fm) == sums::over(w, fm),
            eg + sums::over(bb, fe) == sums::over(w, fe),
            -16777216 <= sums::over(w, fm) <= 16777216,
            -16777216 <= sums::over(w, fe) <= 16777216,
        decreases bb,
    {
        proof {
            sums::lemma_over_step(bb, fm);
            sums::lemma_over_step(bb, fe);
            lemma_worth(bb, *board, *info, c, role, *p, 0);
            lemma_worth(bb, *board, *info, c, role, *p, 1);
            lemma_worth(bits::rest(bb), *board, *info, c, role, *p, 0);
            lemma_worth(bits::rest(bb), *board, *info, c, role, *p, 1);
        }
        let s: usize = pop_lsb(&mut bb);
        let n: i32 = usable_count(board, info, c, role, s);
        proof {
            arith::lemma_product(n as int, wm as int, 64, 4096);
            arith::lemma_product(n as int, we as int, 64, 4096);
        }
        mg = mg + n * wm;
        eg = eg + n * we;
    }
    proof {
        sums::lemma_over_none(fm);
        sums::lemma_over_none(fe);
    }
    Score::new(mg, eg)
}

/// What the mobility of a side is worth.
fn side(board: &Placement, info: &PawnInfo, c: Color, p: &EvalParams) -> (r: Score)
    requires
        p.wf(),
    ensures
        r.mg == half(*board, *info, c, *p, 0),
        r.eg == half(*board, *info, c, *p, 1),
        -83886080 <= r.mg <= 83886080,
        -83886080 <= r.eg <= 83886080,
{
    add_up(board, info, c, Role::Knight, p) + add_up(board, info, c, Role::Bishop, p) + add_up(
        board,
        info,
        c,
        Role::Rook,
        p,
    ) + add_up(board, info, c, Role::Queen, p) + add_up(board, info, c, Role::King, p)
}

/// What White's mobility is worth more than Black's.
pub fn evaluate_mobility(board: &Placement, info: &PawnInfo, p: &EvalParams) -> (r: Score)
    requires
        p.wf(),
    ensures
        r.mg == half(*board, *info, Color::White, *p, 0) - half(*board, *info, Color::Black, *p, 0),
        r.eg == half(*board, *info, Color::White, *p, 1) - half(*board, *info, Color::Black, *p, 1),
{
    side(board, info, Color::White, p) - side(board, info, Color::Black, p)
}

/// The size of what a side has on a board.
pub proof fn lemma_size(b: Placement, info: PawnInfo, c: Color, p: EvalParams, f: int)
    requires
        b.wf(),
        p.wf(),
        0 <= f < 2,
    ensures
        -(1024 * 4096) <= half(b, info, c, p, f) <= 1024 * 4096,
{
    evaluation::lemma_numbers(b, c);
    lemma_part(b, info, c, Role::Knight, p, f);
    lemma_part(b, info, c, Role::Bishop, p, f);
    lemma_part(b, info, c, Role::Rook, p, f);
    lemma_part(b, info, c, Role::Queen, p, f);
    lemma_part(b, info, c, Role::King, p, f);
}

proof fn lemma_part(b: Placement, info: PawnInfo, c: Color, role: Role, p: EvalParams, f: int)
    requires
        b.wf(),
        p.wf(),
        0 <= f < 2,
    ensures
        -(262144 * evaluation::number(b, c, role)) <= part(b, info, c, role, p, f) <= 262144
            * evaluation::number(b, c, role),
{
    lemma_worth(evaluation::word(b, c, role), b, info, c, role, p, f);
}

} // verus!
