//! Passed pawns: those that no enemy pawn can stop any more.
use vstd::prelude::*;
use crate::arith;
use crate::bits;
use crate::board::Placement;
use crate::evaluation;
use crate::evaluation::gap;
use crate::evaluation::params;
use crate::evaluation::params::EvalParams;
use crate::evaluation::pawns::{file_mask, rank_mask, PawnInfo};
use crate::evaluation::Score;
use crate::nnue::attacks::{pop_lsb, square_bb};
use crate::nnue::types::Color;
use crate::sums;
use crate::types::Role;

verus! {

/// No pawn of `enemy` stands ahead of `s`, on its file or on one beside it.
pub open spec fn passed(enemy: u64, c: Color, s: int) -> bool {
    forall|t: int| #[trigger]
        bits::mem(enemy, t) ==> !((t % 8 == s % 8 || evaluation::beside(s, t)) && evaluation::level(
            c,
            t,
        ) > evaluation::level(c, s))
}

/// The passed pawns of both sides.
#[derive(Clone, Copy, Debug)]
pub struct PassedInfo {
    pub white: u64,
    pub black: u64,
}

impl Default for PassedInfo {
    fn default() -> (r: Self)
        ensures
            r == (PassedInfo { white: 0, black: 0 }),
    {
        PassedInfo { white: 0, black: 0 }
    }
}

impl PassedInfo {
    /// The passed pawns of a side.
    pub open spec fn set(self, c: Color) -> u64 {
        match c {
            Color::White => self.white,
            Color::Black => self.black,
        }
    }

    /// These are the passed pawns of a side among the pawns.
    pub open spec fn sound(self, info: PawnInfo, c: Color) -> bool {
        forall|s: int| #[trigger]
            bits::mem(self.set(c), s) == (bits::mem(info.pawns(c), s) && passed(
                info.pawns(c.opposite()),
                c,
                s,
            ))
    }

    /// These are the passed pawns among the pawns.
    pub open spec fn describes(self, info: PawnInfo) -> bool {
        self.sound(info, Color::White) && self.sound(info, Color::Black)
    }

    /// The passed pawns.
    pub fn scan(info: &PawnInfo) -> (r: PassedInfo)
        ensures
            r.describes(*info),
    {
        PassedInfo { white: passed_of(info, Color::White), black: passed_of(info, Color::Black) }
    }

    pub fn of(&self, color: Color) -> (r: u64)
        ensures
            r == self.set(color),
    {
        match color {
            Color::White => self.white,
            Color::Black => self.black,
        }
    }
}

/// The passed pawns of a side.
fn passed_of(info: &PawnInfo, c: Color) -> (r: u64)
    ensures
        forall|s: int| #[trigger]
            bits::mem(r, s) == (bits::mem(info.pawns(c), s) && passed(
                info.pawns(c.opposite()),
                c,
                s,
            )),
{
    broadcast use bits::group_mem;

    let enemy: u64 = info.pawns_of(c.other());
    let w: u64 = info.pawns_of(c);
    let mut bb: u64 = w;
    let mut out: u64 = 0;
    while bb != 0
        invariant
            enemy == info.pawns(c.opposite()),
            w == info.pawns(c),
            forall|s: int| #[trigger] bits::mem(bb, s) ==> bits::mem(w, s),
            forall|s: int| #[trigger]
                bits::mem(out, s) == (bits::mem(w, s) && !bits::mem(bb, s) && passed(enemy, c, s)),
        decreases bb,
    {
        broadcast use bits::group_mem;

        let s: usize = pop_lsb(&mut bb);
        if is_passed(s, c, enemy) {
            out = out | square_bb(s);
        }
    }
    out
}

/// Whether no pawn of `enemy_pawns` can stop a pawn.
pub fn is_passed(s: usize, color: Color, enemy_pawns: u64) -> (r: bool)
    requires
        s < 64,
    ensures
        r == passed(enemy_pawns, color, s as int),
{
    broadcast use bits::group_mem;

    let f: u8 = (s % 8) as u8;
    let mut files: u64 = file_mask(f);
    if f > 0 {
        files = files | file_mask(f - 1);
    }
    if f < 7 {
        files = files | file_mask(f + 1);
    }
    let ahead: u64 = beyond(s, color);
    let way: u64 = files & ahead;
    let r: bool = !bits::meets(enemy_pawns, way);
    proof {
        if r {
            assert forall|t: int| #[trigger] bits::mem(enemy_pawns, t) implies !((t % 8 == s % 8
                || evaluation::beside(s as int, t)) && evaluation::level(color, t)
                > evaluation::level(color, s as int)) by {
                assert(!bits::mem(way, t));
            }
        } else {
            let t = choose|t: int| #[trigger] bits::mem(enemy_pawns, t) && bits::mem(way, t);
            assert(bits::mem(files, t) && bits::mem(ahead, t));
        }
    }
    r
}

/// The squares of the ranks ahead of `s`.
pub fn beyond(s: usize, c: Color) -> (r: u64)
    requires
        s < 64,
    ensures
        forall|t: int| #[trigger]
            bits::mem(r, t) == (0 <= t < 64 && evaluation::level(c, t) > evaluation::level(
                c,
                s as int,
            )),
{
    broadcast use bits::group_mem;

    let rank: u64 = (s / 8) as u64;
    match c {
        Color::White => if rank == 7 {
            0
        } else {
            let k: u64 = 8 * (rank + 1);
            proof {
                assert forall|t: int| #[trigger] bits::mem(!0u64 << k, t) == (0 <= t < 64 && t / 8
                    > rank) by {
                    bits::mem_shl(!0u64, k, t);
                    bits::mem_not(0u64, t - k);
                    bits::mem_zero(t - k);
                }
            }
            !0u64 << k
        },
        Color::Black => {
            let k: u64 = 64 - 8 * rank;
            if rank == 0 {
                0
            } else {
                proof {
                    assert forall|t: int| #[trigger] bits::mem(!0u64 >> k, t) == (0 <= t < 64 && t / 8
                        < rank) by {
                        bits::mem_shr(!0u64, k, t);
                        bits::mem_not(0u64, t + k);
                        bits::mem_zero(t + k);
                    }
                }
                !0u64 >> k
            }
        },
    }
}

// --- what they are worth --------------------------------------------------------------------

/// The square on which a pawn promotes.
pub open spec fn promotion_square(c: Color, s: int) -> int {
    match c {
        Color::White => 56 + s % 8,
        Color::Black => s % 8,
    }
}

/// The slot of the bonus for the rank of a pawn.
pub open spec fn slot(c: Color, s: int) -> int {
    arith::within(evaluation::level(c, s) - 1, 0, 5)
}

/// The bonus for the rank of a passed pawn. In the endgame it is a quarter more
/// where the own king is nearer to the promotion square, and a quarter less
/// where it is farther away.
pub open spec fn rank_bonus(b: Placement, c: Color, p: EvalParams, f: int, s: int) -> int {
    let bonus = p.passed_bonus@[slot(c, s)]@[f] as int;
    let goal = promotion_square(c, s);
    let ours = b.king_sq(c);
    let theirs = b.king_sq(c.opposite());
    if f == 0 || ours == 64 || theirs == 64 {
        bonus
    } else if evaluation::distance(ours, goal) < evaluation::distance(theirs, goal) {
        arith::trunc_div(bonus * 125, 100)
    } else if evaluation::distance(ours, goal) > evaluation::distance(theirs, goal) {
        arith::trunc_div(bonus * 75, 100)
    } else {
        bonus
    }
}

/// Another passed pawn stands on the next file, at most one rank away.
pub open spec fn supported(w: u64, s: int) -> bool {
    exists|t: int| #[trigger]
        bits::mem(w, t) && t % 8 == s % 8 + 1 && -1 <= t / 8 - s / 8 <= 1
}

/// What the passed pawn on a square is worth.
pub open spec fn worth(
    b: Placement,
    info: PawnInfo,
    w: u64,
    c: Color,
    p: EvalParams,
    f: int,
) -> spec_fn(int) -> int {
    |s: int|
        rank_bonus(b, c, p, f, s) + evaluation::where_so(
            bits::mem(info.hits(c), s),
            p.protected_passed@[f],
        ) + evaluation::where_so(supported(w, s), p.connected_passed@[f])
}

/// What a side's passed pawns are worth.
pub open spec fn half(
    b: Placement,
    info: PawnInfo,
    passed: PassedInfo,
    c: Color,
    p: EvalParams,
    f: int,
) -> int {
    sums::over(passed.set(c), worth(b, info, passed.set(c), c, p, f))
}

/// The size of what passed pawns are worth.
proof fn lemma_worth(
    x: u64,
    b: Placement,
    info: PawnInfo,
    w: u64,
    c: Color,
    p: EvalParams,
    f: int,
)
    requires
        p.wf(),
        0 <= f < 2,
    ensures
        -(13312 * bits::ones(x)) <= sums::over(x, worth(b, info, w, c, p, f)) <= 13312 * bits::ones(
            x,
        ),
        bits::ones(x) <= 64,
        forall|s: int| -13312 <= #[trigger] worth(b, info, w, c, p, f)(s) <= 13312,
{
    assert(params::pair_at_most(p.protected_passed, 4096));
    assert(params::pair_at_most(p.connected_passed, 4096));
    assert forall|s: int| -13312 <= #[trigger] worth(b, info, w, c, p, f)(s) <= 13312 by {
        assert(params::pair_at_most(p.passed_bonus@[slot(c, s)], 4096));
    }
    assert forall|s: int| #[trigger] bits::mem(x, s) implies -13312 <= worth(b, info, w, c, p, f)(
        s,
    ) <= 13312 by {}
    sums::lemma_over_bound(x, worth(b, info, w, c, p, f), 13312);
    bits::lemma_ones_set(x);
}

/// How many king's steps two squares are apart.
pub fn steps(a: usize, b: usize) -> (r: usize)
    ensures
        r == evaluation::distance(a as int, b as int),
{
    let df: usize = gap(a % 8, b % 8);
    let dr: usize = gap(a / 8, b / 8);
    if df > dr {
        df
    } else {
        dr
    }
}

/// The bonus for the rank of a passed pawn.
fn rank_bonus_of(board: &Placement, c: Color, p: &EvalParams, s: usize) -> (r: Score)
    requires
        p.wf(),
        s < 64,
    ensures
        r.mg == rank_bonus(*board, c, *p, 0, s as int),
        r.eg == rank_bonus(*board, c, *p, 1, s as int),
{
    let rank: i32 = (s / 8) as i32;
    let place: i32 = match c {
        Color::White => rank - 1,
        Color::Black => 6 - rank,
    };
    let i: usize = arith::clamp_i32(place, 0, 5) as usize;
    proof {
        assert(i == slot(c, s as int));
        assert(params::pair_at_most(p.passed_bonus@[i as int], 4096));
    }
    let mg: i32 = p.passed_bonus[i][0];
    let eg: i32 = p.passed_bonus[i][1];
    let goal: usize = match c {
        Color::White => 56 + s % 8,
        Color::Black => s % 8,
    };
    let ours: Option<usize> = board.king_of(c);
    let theirs: Option<usize> = board.king_of(c.other());
    if let Some(a) = ours {
        if let Some(b) = theirs {
            let da: usize = steps(a, goal);
            let db: usize = steps(b, goal);
            if da < db {
                return Score::new(mg, (eg * 125) / 100);
            }
            if da > db {
                return Score::new(mg, (eg * 75) / 100);
            }
        }
    }
    Score::new(mg, eg)
}

fn is_supported(w: u64, s: usize) -> (r: bool)
    requires
        s < 64,
    ensures
        r == supported(w, s as int),
{
    broadcast use bits::group_mem;

    let f: u8 = (s % 8) as u8;
    if f == 7 {
        proof {
            assert forall|t: int| #[trigger] bits::mem(w, t) implies t % 8 != s % 8 + 1 by {}
        }
        return false;
    }
    let rank: u8 = (s / 8) as u8;
    let mut band: u64 = rank_mask(rank);
    if rank > 0 {
        band = band | rank_mask(rank - 1);
    }
    if rank < 7 {
        band = band | rank_mask(rank + 1);
    }
    let near: u64 = file_mask(f + 1) & band;
    let r: bool = bits::meets(w, near);
    proof {
        if r {
            let t = choose|t: int| #[trigger] bits::mem(w, t) && bits::mem(near, t);
            assert(t % 8 == s % 8 + 1);
        }
        if supported(w, s as int) {
            let t = choose|t: int| #[trigger]
                bits::mem(w, t) && t % 8 == s % 8 + 1 && -1 <= t / 8 - s / 8 <= 1;
            assert(bits::mem(near, t));
        }
    }
    r
}

/// What the passed pawn on a square is worth.
fn worth_of(
    board: &Placement,
    info: &PawnInfo,
    w: u64,
    c: Color,
    p: &EvalParams,
    s: usize,
) -> (r: Score)
    requires
        p.wf(),
        s < 64,
    ensures
        r.mg == worth(*board, *info, w, c, *p, 0)(s as int),
        r.eg == worth(*board, *info, w, c, *p, 1)(s as int),
{
    let bonus: Score = rank_bonus_of(board, c, p, s);
    proof {
        assert(params::pair_at_most(p.passed_bonus@[slot(c, s as int)], 4096));
    }
    let mut mg: i32 = bonus.mg;
    let mut eg: i32 = bonus.eg;
    if bits::contains(info.pawn_attacks_of(c), s) {
        mg = mg + p.protected_passed[0];
        eg = eg + p.protected_passed[1];
    }
    if is_supported(w, s) {
        mg = mg + p.connected_passed[0];
        eg = eg + p.connected_passed[1];
    }
    Score::new(mg, eg)
}

/// What a side's passed pawns are worth.
fn side(
    board: &Placement,
    info: &PawnInfo,
    passed: &PassedInfo,
    c: Color,
    p: &EvalParams,
) -> (r: Score)
    requires
        p.wf(),
    ensures
        r.mg == half(*board, *info, *passed, c, *p, 0),
        r.eg == half(*board, *info, *passed, c, *p, 1),
        -851968 <= r.mg <= 851968,
        -851968 <= r.eg <= 851968,
{
    let w: u64 = passed.of(c);
    let ghost fm = worth(*board, *info, w, c, *p, 0);
    let ghost fe = worth(*board, *info, w, c, *p, 1);
    let mut bb: u64 = w;
    let mut mg: i32 = 0;
    let mut eg: i32 = 0;
    proof {
        lemma_worth(w, *board, *info, w, c, *p, 0);
        lemma_worth(w, *board, *info, w, c, *p, 1);
    }
    while bb != 0
        invariant
            p.wf(),
            fm == worth(*board, *info, w, c, *p, 0),
            fe == worth(*board, *info, w, c, *p, 1),
            mg + sums::over(bb, fm) == sums::over(w, fm),
            eg + sums::over(bb, fe) == sums::over(w, fe),
            -851968 <= sums::over(w, fm) <= 851968,
            -851968 <= sums::over(w, fe) <= 851968,
        decreases bb,
    {
        proof {
            sums::lemma_over_step(bb, fm);
            sums::lemma_over_step(bb, fe);
            lemma_worth(bb, *board, *info, w, c, *p, 0);
            lemma_worth(bb, *board, *info, w, c, *p, 1);
            lemma_worth(bits::rest(bb), *board, *info, w, c, *p, 0);
            lemma_worth(bits::rest(bb), *board, *info, w, c, *p, 1);
        }
        let s: usize = pop_lsb(&mut bb);
        let x: Score = worth_of(board, info, w, c, p, s);
        mg = mg + x.mg;
        eg = eg + x.eg;
    }
    proof {
        sums::lemma_over_none(fm);
        sums::lemma_over_none(fe);
    }
    Score::new(mg, eg)
}

/// What White's passed pawns are worth more than Black's.
pub fn evaluate_passed(
    board: &Placement,
    info: &PawnInfo,
    passed: &PassedInfo,
    p: &EvalParams,
) -> (r: Score)
    requires
        p.wf(),
    ensures
        r.mg == half(*board, *info, *passed, Color::White, *p, 0) - half(
            *board,
            *info,
            *passed,
            Color::Black,
            *p,
            0,
        ),
        r.eg == half(*board, *info, *passed, Color::White, *p, 1) - half(
            *board,
            *info,
            *passed,
            Color::Black,
            *p,
            1,
        ),
{
    side(board, info, passed, Color::White, p) - side(board, info, passed, Color::Black, p)
}

/// The size of what a side has on a board.
pub proof fn lemma_size(
    b: Placement,
    info: PawnInfo,
    passed: PassedInfo,
    c: Color,
    p: EvalParams,
    f: int,
)
    requires
        b.wf(),
        p.wf(),
        info.describes(b),
        passed.describes(info),
        0 <= f < 2,
    ensures
        -(52 * 4096) <= half(b, info, passed, c, p, f) <= 52 * 4096,
{
    evaluation::lemma_number(b, c, Role::Pawn);
    bits::lemma_ones_mono(passed.set(c), info.pawns(c));
    lemma_worth(passed.set(c), b, info, passed.set(c), c, p, f);
}

} // verus!
