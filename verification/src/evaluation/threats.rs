//! Threats, rooks on open files and on the seventh rank, and space.
use vstd::prelude::*;
use crate::arith;
use crate::bits;
use crate::board::Placement;
use crate::evaluation;
use crate::evaluation::mobility;
use crate::evaluation::mobility::attacked_by;
use crate::evaluation::params;
use crate::evaluation::params::EvalParams;
use crate::evaluation::pawns;
use crate::evaluation::pawns::{file_mask, PawnInfo};
use crate::evaluation::Score;
use crate::nnue::attacks;
use crate::nnue::attacks::pop_lsb;
use crate::nnue::geometry;
use crate::nnue::types::Color;
use crate::sums;
use crate::types::Role;

verus! {

/// The most that space is worth.
pub const SPACE_CAP: i32 = 48;

// --- threats --------------------------------------------------------------------------------

/// A side attacks `t`, with a pawn, a piece or its king.
pub open spec fn attacked(b: Placement, info: PawnInfo, c: Color, t: int) -> bool {
    bits::mem(info.hits(c), t) || mobility::hit_by(b, c, Role::Knight, t) || mobility::hit_by(
        b,
        c,
        Role::Bishop,
        t,
    ) || mobility::hit_by(b, c, Role::Rook, t) || mobility::hit_by(b, c, Role::Queen, t)
        || geometry::king_step(b.king_sq(c), t)
}

/// Where the king of a side stands; on e1 where there is none.
pub open spec fn home(b: Placement, c: Color) -> int {
    if b.king_sq(c) == 64 {
        4
    } else {
        b.king_sq(c)
    }
}

/// An enemy piece on `t` is attacked and not defended, and is no king.
pub open spec fn hangs(b: Placement, info: PawnInfo, c: Color, t: int) -> bool {
    &&& bits::mem(b.side(c.opposite()), t)
    &&& attacked(b, info, c, t)
    &&& !attacked(b, info, c.opposite(), t)
    &&& !geometry::king_step(home(b, c.opposite()), t)
    &&& !bits::mem(evaluation::word(b, c.opposite(), Role::King), t)
}

/// What attacking the piece on a square is worth: three fortieths of the piece.
pub open spec fn loot(b: Placement, info: PawnInfo, c: Color, p: EvalParams) -> spec_fn(int) -> int {
    |t: int|
        if hangs(b, info, c, t) {
            match b.role_on(t) {
                Some(role) => arith::trunc_div(params::value_of(p, role) * 3, 40),
                None => 0,
            }
        } else {
            0
        }
}

/// A pawn of the side attacks an enemy piece that is no pawn.
pub open spec fn forked(b: Placement, info: PawnInfo, c: Color) -> spec_fn(int) -> bool {
    |t: int|
        bits::mem(info.hits(c), t) && bits::mem(b.side(c.opposite()), t) && !bits::mem(
            evaluation::word(b, c.opposite(), Role::Pawn),
            t,
        )
}

/// A knight or a bishop of the side is attacked by an enemy pawn.
pub open spec fn weak(b: Placement, info: PawnInfo, c: Color) -> spec_fn(int) -> bool {
    |t: int|
        (bits::mem(evaluation::word(b, c, Role::Knight), t) || bits::mem(
            evaluation::word(b, c, Role::Bishop),
            t,
        )) && bits::mem(info.hits(c.opposite()), t)
}

/// What a side's threats are worth in the midgame.
pub open spec fn threat(b: Placement, info: PawnInfo, c: Color, p: EvalParams) -> int {
    sums::how_many(forked(b, info, c)) * p.pawn_attack_bonus + sums::ranged(
        64,
        loot(b, info, c, p),
    ) + sums::how_many(weak(b, info, c)) * p.weak_minor
}

/// What a side's threats are worth: half as much in the endgame.
pub open spec fn half(b: Placement, info: PawnInfo, c: Color, p: EvalParams, f: int) -> int {
    if f == 0 {
        threat(b, info, c, p)
    } else {
        arith::trunc_div(threat(b, info, c, p), 2)
    }
}

/// All squares that a side attacks.
pub fn total_attacks(board: &Placement, c: Color, info: &PawnInfo) -> (r: u64)
    ensures
        forall|t: int| #[trigger] bits::mem(r, t) == attacked(*board, *info, c, t),
{
    broadcast use bits::group_mem;

    let king: u64 = match board.king_of(c) {
        Some(k) => attacks::attacks_bb(6, k, 0),
        None => 0,
    };
    info.pawn_attacks_of(c) | attacked_by(board, c, Role::Knight) | attacked_by(
        board,
        c,
        Role::Bishop,
    ) | attacked_by(board, c, Role::Rook) | attacked_by(board, c, Role::Queen) | king
}

/// The size of what is won by attacking.
proof fn lemma_loot(w: u64, b: Placement, info: PawnInfo, c: Color, p: EvalParams)
    requires
        p.wf(),
    ensures
        -(308 * bits::ones(w)) <= sums::over(w, loot(b, info, c, p)) <= 308 * bits::ones(w),
        bits::ones(w) <= 64,
        forall|t: int| -308 <= #[trigger] loot(b, info, c, p)(t) <= 308,
{
    assert forall|t: int| -308 <= #[trigger] loot(b, info, c, p)(t) <= 308 by {
        if let Some(role) = b.role_on(t) {
            assert(params::at_most(params::value_of(p, role) as i32, 4096));
        }
    }
    assert forall|t: int| #[trigger] bits::mem(w, t) implies -308 <= loot(b, info, c, p)(t)
        <= 308 by {}
    sums::lemma_over_bound(w, loot(b, info, c, p), 308);
    bits::lemma_ones_set(w);
}

/// What a side's attacks on undefended pieces are worth.
fn loot_of(board: &Placement, info: &PawnInfo, c: Color, p: &EvalParams) -> (r: i32)
    requires
        p.wf(),
    ensures
        r == sums::ranged(64, loot(*board, *info, c, *p)),
        -19712 <= r <= 19712,
{
    broadcast use bits::group_mem;

    let enemy: Color = c.other();
    let ours: u64 = total_attacks(board, c, info);
    let theirs: u64 = total_attacks(board, enemy, info);
    let king: usize = match board.king_of(enemy) {
        Some(k) => k,
        None => 4,
    };
    let guard: u64 = attacks::attacks_bb(6, king, 0);
    let w: u64 = board.by_color(enemy) & ours & !(theirs | guard) & !board.by_piece(
        enemy,
        Role::King,
    );
    let ghost f = loot(*board, *info, c, *p);
    proof {
        assert(king == home(*board, enemy));
        assert forall|t: int| #[trigger] bits::mem(w, t) == hangs(*board, *info, c, t) by {}
        assert forall|t: int| 0 <= t < 64 implies #[trigger] f(t) == sums::masked(w, f)(t) by {}
        sums::lemma_ranged_same(64, f, sums::masked(w, f));
        lemma_loot(w, *board, *info, c, *p);
    }
    let mut bb: u64 = w;
    let mut mg: i32 = 0;
    while bb != 0
        invariant
            p.wf(),
            f == loot(*board, *info, c, *p),
            forall|t: int| #[trigger] bits::mem(bb, t) ==> hangs(*board, *info, c, t),
            mg + sums::over(bb, f) == sums::over(w, f),
            -19712 <= sums::over(w, f) <= 19712,
        decreases bb,
    {
        proof {
            sums::lemma_over_step(bb, f);
            lemma_loot(bb, *board, *info, c, *p);
            lemma_loot(bits::rest(bb), *board, *info, c, *p);
        }
        let t: usize = pop_lsb(&mut bb);
        if let Some(role) = board.role_at(t) {
            let v: i32 = p.piece_value(role);
            proof {
                assert(params::at_most(v, 4096));
            }
            mg = mg + v * 3 / 40;
        }
    }
    proof {
        sums::lemma_over_none(f);
    }
    mg
}

/// What a side's threats are worth.
fn side(board: &Placement, info: &PawnInfo, c: Color, p: &EvalParams) -> (r: Score)
    requires
        p.wf(),
    ensures
        r.mg == half(*board, *info, c, *p, 0),
        r.eg == half(*board, *info, c, *p, 1),
        -600000 <= r.mg <= 600000,
        -600000 <= r.eg <= 600000,
{
    broadcast use bits::group_mem;

    let enemy: Color = c.other();
    let hits: u64 = info.pawn_attacks_of(c) & board.by_color(enemy) & !board.by_piece(
        enemy,
        Role::Pawn,
    );
    let poor: u64 = (board.by_piece(c, Role::Knight) | board.by_piece(c, Role::Bishop))
        & info.pawn_attacks_of(enemy);
    let n: i32 = bits::count(hits) as i32;
    let m: i32 = bits::count(poor) as i32;
    proof {
        let u = forked(*board, *info, c);
        assert forall|t: int| 0 <= t < 64 implies #[trigger] bits::mem(hits, t) == u(t) by {}
        sums::lemma_how_many(hits, u);
        let v = weak(*board, *info, c);
        assert forall|t: int| 0 <= t < 64 implies #[trigger] bits::mem(poor, t) == v(t) by {}
        sums::lemma_how_many(poor, v);
        arith::lemma_product(n as int, p.pawn_attack_bonus as int, 64, 4096);
        arith::lemma_product(m as int, p.weak_minor as int, 64, 4096);
    }
    let mg: i32 = n * p.pawn_attack_bonus + loot_of(board, info, c, p) + m * p.weak_minor;
    Score::new(mg, mg / 2)
}

/// What White's threats are worth more than Black's.
pub fn evaluate_threats(board: &Placement, info: &PawnInfo, p: &EvalParams) -> (r: Score)
    requires
        p.wf(),
    ensures
        r.mg == half(*board, *info, Color::White, *p, 0) - half(*board, *info, Color::Black, *p, 0),
        r.eg == half(*board, *info, Color::White, *p, 1) - half(*board, *info, Color::Black, *p, 1),
        -1200000 <= r.mg <= 1200000,
        -1200000 <= r.eg <= 1200000,
{
    side(board, info, Color::White, p) - side(board, info, Color::Black, p)
}

/// The size of what a side has on a board.
pub proof fn lemma_size(b: Placement, info: PawnInfo, c: Color, p: EvalParams, f: int)
    requires
        p.wf(),
    ensures
        -(140 * 4096) <= half(b, info, c, p, f) <= 140 * 4096,
{
    let all = !0u64;
    let g = loot(b, info, c, p);
    assert forall|t: int| 0 <= t < 64 implies #[trigger] g(t) == sums::masked(all, g)(t) by {
        bits::mem_not(0, t);
        bits::mem_zero(t);
    }
    sums::lemma_ranged_same(64, g, sums::masked(all, g));
    lemma_loot(all, b, info, c, p);
    sums::lemma_how_many_range(forked(b, info, c));
    sums::lemma_how_many_range(weak(b, info, c));
    arith::lemma_product(
        sums::how_many(forked(b, info, c)),
        p.pawn_attack_bonus as int,
        64,
        4096,
    );
    arith::lemma_product(sums::how_many(weak(b, info, c)), p.weak_minor as int, 64, 4096);
}

// --- rooks ----------------------------------------------------------------------------------

/// What the file and the rank of a rook are worth: the file where no pawn, or no
/// own pawn, stands on it, the seventh rank where no enemy rook shares the file.
pub open spec fn rook_worth(
    b: Placement,
    info: PawnInfo,
    c: Color,
    p: EvalParams,
    f: int,
) -> spec_fn(int) -> int {
    |s: int|
        (if !pawns::on_file(info.white, s % 8) && !pawns::on_file(info.black, s % 8) {
            p.rook_open@[f] as int
        } else if !pawns::on_file(info.pawns(c), s % 8) {
            p.rook_semi_open@[f] as int
        } else {
            0
        }) + evaluation::where_so(
            evaluation::level(c, s) == 6 && !pawns::on_file(
                evaluation::word(b, c.opposite(), Role::Rook),
                s % 8,
            ),
            p.rook_seventh@[f],
        )
}

/// What the files and ranks of a side's rooks are worth.
pub open spec fn rook_half(b: Placement, info: PawnInfo, c: Color, p: EvalParams, f: int) -> int {
    sums::over(evaluation::word(b, c, Role::Rook), rook_worth(b, info, c, p, f))
}

/// Whether a square of a set lies on a file.
fn is_on_file(w: u64, f: usize) -> (r: bool)
    requires
        f < 8,
    ensures
        r == pawns::on_file(w, f as int),
{
    let file: u64 = file_mask(f as u8);
    let r: bool = bits::meets(w, file);
    proof {
        if r {
            let t = choose|t: int| #[trigger] bits::mem(w, t) && bits::mem(file, t);
            assert(t % 8 == f);
        }
        if pawns::on_file(w, f as int) {
            let t = choose|t: int| #[trigger] bits::mem(w, t) && t % 8 == f;
            assert(bits::mem(file, t));
        }
    }
    r
}

/// The size of what the files and ranks of rooks are worth.
proof fn lemma_rook_worth(w: u64, b: Placement, info: PawnInfo, c: Color, p: EvalParams, f: int)
    requires
        p.wf(),
        0 <= f < 2,
    ensures
        -(8192 * bits::ones(w)) <= sums::over(w, rook_worth(b, info, c, p, f)) <= 8192
            * bits::ones(w),
        bits::ones(w) <= 64,
        forall|s: int| -8192 <= #[trigger] rook_worth(b, info, c, p, f)(s) <= 8192,
{
    assert(params::pair_at_most(p.rook_open, 4096));
    assert(params::pair_at_most(p.rook_semi_open, 4096));
    assert(params::pair_at_most(p.rook_seventh, 4096));
    assert forall|s: int| -8192 <= #[trigger] rook_worth(b, info, c, p, f)(s) <= 8192 by {}
    assert forall|s: int| #[trigger] bits::mem(w, s) implies -8192 <= rook_worth(b, info, c, p, f)(
        s,
    ) <= 8192 by {}
    sums::lemma_over_bound(w, rook_worth(b, info, c, p, f), 8192);
    bits::lemma_ones_set(w);
}

/// What the file and the rank of a rook are worth.
fn rook_worth_of(board: &Placement, info: &PawnInfo, c: Color, p: &EvalParams, s: usize) -> (r:
    Score)
    requires
        p.wf(),
        s < 64,
    ensures
        r.mg == rook_worth(*board, *info, c, *p, 0)(s as int),
        r.eg == rook_worth(*board, *info, c, *p, 1)(s as int),
{
    let f: usize = s % 8;
    let mut mg: i32 = 0;
    let mut eg: i32 = 0;
    if !is_on_file(info.white, f) && !is_on_file(info.black, f) {
        mg = p.rook_open[0];
        eg = p.rook_open[1];
    } else if !is_on_file(info.pawns_of(c), f) {
        mg = p.rook_semi_open[0];
        eg = p.rook_semi_open[1];
    }
    let seventh: bool = match c {
        Color::White => s / 8 == 6,
        Color::Black => s / 8 == 1,
    };
    if seventh && !is_on_file(board.by_piece(c.other(), Role::Rook), f) {
        mg = mg + p.rook_seventh[0];
        eg = eg + p.rook_seventh[1];
    }
    Score::new(mg, eg)
}

/// What the files and ranks of a side's rooks are worth.
fn rook_side(board: &Placement, info: &PawnInfo, c: Color, p: &EvalParams) -> (r: Score)
    requires
        p.wf(),
    ensures
        r.mg == rook_half(*board, *info, c, *p, 0),
        r.eg == rook_half(*board, *info, c, *p, 1),
        -524288 <= r.mg <= 524288,
        -524288 <= r.eg <= 524288,
{
    let ghost fm = rook_worth(*board, *info, c, *p, 0);
    let ghost fe = rook_worth(*board, *info, c, *p, 1);
    let w: u64 = board.by_piece(c, Role::Rook);
    let mut bb: u64 = w;
    let mut mg: i32 = 0;
    let mut eg: i32 = 0;
    proof {
        lemma_rook_worth(w, *board, *info, c, *p, 0);
        lemma_rook_worth(w, *board, *info, c, *p, 1);
    }
    while bb != 0
        invariant
            p.wf(),
            fm == rook_worth(*board, *info, c, *p, 0),
            fe == rook_worth(*board, *info, c, *p, 1),
            mg + sums::over(bb, fm) == sums::over(w, fm),
            eg + sums::over(bb, fe) == sums::over(w, fe),
            -524288 <= sums::over(w, fm) <= 524288,
            -524288 <= sums::over(w, fe) <= 524288,
        decreases bb,
    {
        proof {
            sums::lemma_over_step(bb, fm);
            sums::lemma_over_step(bb, fe);
            lemma_rook_worth(bb, *board, *info, c, *p, 0);
            lemma_rook_worth(bb, *board, *info, c, *p, 1);
            lemma_rook_worth(bits::rest(bb), *board, *info, c, *p, 0);
            lemma_rook_worth(bits::rest(bb), *board, *info, c, *p, 1);
        }
        let s: usize = pop_lsb(&mut bb);
        let x: Score = rook_worth_of(board, info, c, p, s);
        mg = mg + x.mg;
        eg = eg + x.eg;
    }
    proof {
        sums::lemma_over_none(fm);
        sums::lemma_over_none(fe);
    }
    Score::new(mg, eg)
}

/// What the files and ranks of White's rooks are worth more than those of
/// Black's.
pub fn evaluate_rooks(board: &Placement, info: &PawnInfo, p: &EvalParams) -> (r: Score)
    requires
        p.wf(),
    ensures
        r.mg == rook_half(*board, *info, Color::White, *p, 0) - rook_half(
            *board,
            *info,
            Color::Black,
            *p,
            0,
        ),
        r.eg == rook_half(*board, *info, Color::White, *p, 1) - rook_half(
            *board,
            *info,
            Color::Black,
            *p,
            1,
        ),
        -1048576 <= r.mg <= 1048576,
        -1048576 <= r.eg <= 1048576,
{
    rook_side(board, info, Color::White, p) - rook_side(board, info, Color::Black, p)
}

/// The size of what a side has on a board.
pub proof fn lemma_rook_size(b: Placement, info: PawnInfo, c: Color, p: EvalParams, f: int)
    requires
        b.wf(),
        p.wf(),
        0 <= f < 2,
    ensures
        -(32 * 4096) <= rook_half(b, info, c, p, f) <= 32 * 4096,
{
    evaluation::lemma_number(b, c, Role::Rook);
    lemma_rook_worth(evaluation::word(b, c, Role::Rook), b, info, c, p, f);
}

// --- space ----------------------------------------------------------------------------------

/// A pawn on `s` attacks a square of the enemy's half of the board.
pub open spec fn presses(c: Color, s: int) -> bool {
    exists|t: int| #[trigger]
        geometry::pawn_step(c.index(), s, t) && evaluation::level(c, t) >= 4
}

/// A pawn of the side gains space: it stands on its fourth or fifth rank and
/// attacks a square of the enemy's half. On the fourth rank, no enemy pawn may
/// attack it.
pub open spec fn advanced(info: PawnInfo, c: Color) -> spec_fn(int) -> bool {
    |s: int|
        bits::mem(info.pawns(c), s) && (evaluation::level(c, s) == 4 || evaluation::level(c, s) == 3
            && !bits::mem(info.hits(c.opposite()), s)) && presses(c, s)
}

/// What White's pawns that gain space are worth more than Black's, at most
/// `SPACE_CAP` either way.
pub open spec fn space(info: PawnInfo, x: int) -> int {
    arith::within(
        (sums::how_many(advanced(info, Color::White)) - sums::how_many(
            advanced(info, Color::Black),
        )) * x,
        -48,
        48,
    )
}

/// A pawn on its fourth or fifth rank attacks a square of the enemy's half.
proof fn lemma_presses(c: Color, s: int)
    requires
        0 <= s < 64,
        3 <= evaluation::level(c, s) <= 4,
    ensures
        presses(c, s),
{
    let f = evaluation::front(c, s);
    let t = if s % 8 == 7 {
        f - 1
    } else {
        f + 1
    };
    assert(geometry::pawn_step(c.index(), s, t));
}

/// How many pawns of the side gain space.
fn advanced_count(info: &PawnInfo, c: Color) -> (r: i32)
    ensures
        r == sums::how_many(advanced(*info, c)),
        0 <= r <= 64,
{
    broadcast use bits::group_mem;

    let fourth: u64 = match c {
        Color::White => pawns::rank_mask(3),
        Color::Black => pawns::rank_mask(4),
    };
    let fifth: u64 = match c {
        Color::White => pawns::rank_mask(4),
        Color::Black => pawns::rank_mask(3),
    };
    let w: u64 = info.pawns_of(c) & (fifth | (fourth & !info.pawn_attacks_of(c.other())));
    proof {
        let u = advanced(*info, c);
        assert forall|t: int| 0 <= t < 64 implies #[trigger] bits::mem(w, t) == u(t) by {
            if 3 <= evaluation::level(c, t) <= 4 {
                lemma_presses(c, t);
            }
        }
        sums::lemma_how_many(w, u);
    }
    bits::count(w) as i32
}

/// What White's pawns that gain space are worth more than Black's.
pub fn evaluate_space(_board: &Placement, info: &PawnInfo, p: &EvalParams) -> (r: Score)
    requires
        p.wf(),
    ensures
        r.mg == space(*info, p.space_mg as int),
        r.eg == space(*info, p.space_eg as int),
{
    let n: i32 = advanced_count(info, Color::White) - advanced_count(info, Color::Black);
    proof {
        assert(-262144 <= n * p.space_mg <= 262144) by (nonlinear_arith)
            requires
                -64 <= n <= 64,
                -4096 <= p.space_mg <= 4096,
        ;
        assert(-262144 <= n * p.space_eg <= 262144) by (nonlinear_arith)
            requires
                -64 <= n <= 64,
                -4096 <= p.space_eg <= 4096,
        ;
    }
    Score::new(
        arith::clamp_i32(n * p.space_mg, -SPACE_CAP, SPACE_CAP),
        arith::clamp_i32(n * p.space_eg, -SPACE_CAP, SPACE_CAP),
    )
}

} // verus!
