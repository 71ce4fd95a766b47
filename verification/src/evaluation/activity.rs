//! What the pieces do: outposts, bishops hemmed in by pawns, development,
//! connected rooks, rooks and queens behind passed pawns, queens under fire, and
//! knights and bishops that work together.
use vstd::prelude::*;
use crate::arith;
use crate::bits;
use crate::board::Placement;
use crate::evaluation;
use crate::evaluation::params;
use crate::evaluation::params::EvalParams;
use crate::evaluation::passed_pawns::{beyond, PassedInfo};
use crate::evaluation::pawns::{file_mask, rank_mask, PawnInfo};
use crate::evaluation::Score;
use crate::nnue::attacks::{pop_lsb, square_bb};
use crate::nnue::geometry;
use crate::nnue::types::Color;
use crate::sums;
use crate::types::Role;

verus! {

/// The squares whose file and rank, both counted from 0, have an even sum.
pub const EVEN_SQUARES: u64 = 0xAA55_AA55_AA55_AA55;

/// `n` times a pair of weights.
fn times(n: u32, w: &[i32; 2]) -> (r: Score)
    requires
        n <= 64,
        params::pair_at_most(*w, 4096),
    ensures
        r.mg == n * w@[0],
        r.eg == n * w@[1],
        -262144 <= r.mg <= 262144,
        -262144 <= r.eg <= 262144,
{
    proof {
        arith::lemma_product(n as int, w@[0] as int, 64, 4096);
        arith::lemma_product(n as int, w@[1] as int, 64, 4096);
    }
    Score::new(n as i32 * w[0], n as i32 * w[1])
}

// --- outposts -------------------------------------------------------------------------------

/// A square is in the enemy's camp: on the fifth or sixth rank as the side
/// counts them.
pub open spec fn in_camp(c: Color, s: int) -> bool {
    4 <= evaluation::level(c, s) <= 5
}

/// A piece of a kind stands in the enemy's camp, defended by a pawn and attacked
/// by none.
pub open spec fn outpost(b: Placement, info: PawnInfo, c: Color, role: Role) -> spec_fn(
    int,
) -> bool {
    |s: int|
        bits::mem(evaluation::word(b, c, role), s) && bits::mem(info.hits(c), s) && !bits::mem(
            info.hits(c.opposite()),
            s,
        ) && in_camp(c, s)
}

/// How many outposts a side has.
fn outposts(board: &Placement, info: &PawnInfo, c: Color, role: Role) -> (r: u32)
    ensures
        r == sums::how_many(outpost(*board, *info, c, role)),
        r <= 64,
{
    broadcast use bits::group_mem;

    let camp: u64 = match c {
        Color::White => rank_mask(4) | rank_mask(5),
        Color::Black => rank_mask(2) | rank_mask(3),
    };
    let w: u64 = board.by_piece(c, role) & info.pawn_attacks_of(c) & !info.pawn_attacks_of(
        c.other(),
    ) & camp;
    proof {
        let u = outpost(*board, *info, c, role);
        assert forall|t: int| 0 <= t < 64 implies #[trigger] bits::mem(w, t) == u(t) by {}
        sums::lemma_how_many(w, u);
    }
    bits::count(w)
}

// --- bishops and pawns ------------------------------------------------------------------------

/// The sum of the file and the rank of a square is even.
pub open spec fn even(s: int) -> bool {
    (s % 8 + s / 8) % 2 == 0
}

/// A pawn of the side stands on a square of the other parity than `s`.
pub open spec fn hemming(info: PawnInfo, c: Color, s: int) -> spec_fn(int) -> bool {
    |t: int| bits::mem(info.pawns(c), t) && even(t) != even(s)
}

/// How many pawns too many there are for the bishop on `s`.
pub open spec fn excess(info: PawnInfo, c: Color, p: EvalParams, s: int) -> int {
    let n = sums::how_many(hemming(info, c, s)) - 1;
    let m = if n > 0 {
        n
    } else {
        0
    };
    if m < p.bad_bishop_cap {
        m
    } else {
        p.bad_bishop_cap as int
    }
}

/// What the pawns around the bishop on a square cost.
pub open spec fn hemmed(info: PawnInfo, c: Color, p: EvalParams, f: int) -> spec_fn(int) -> int {
    |s: int| excess(info, c, p, s) * p.bad_bishop_pawn@[f]
}

/// What the pawns around a side's bishops cost.
pub open spec fn bad_bishops(b: Placement, info: PawnInfo, c: Color, p: EvalParams, f: int) -> int {
    sums::over(evaluation::word(b, c, Role::Bishop), hemmed(info, c, p, f))
}

/// Which squares have an even sum.
proof fn lemma_even(t: int)
    ensures
        bits::mem(EVEN_SQUARES, t) == (0 <= t < 64 && even(t)),
{
    if 0 <= t < 64 {
        let i = t as u64;
        assert(i < 64 ==> ((0xAA55_AA55_AA55_AA55u64 >> i) & 1u64 == 1u64 <==> (i % 8 + i / 8) % 2
            == 0)) by (bit_vector);
    }
}

/// How many pawns too many there are for the bishop on `s`.
fn excess_of(info: &PawnInfo, c: Color, p: &EvalParams, s: usize) -> (r: i32)
    requires
        p.wf(),
        s < 64,
    ensures
        r == excess(*info, c, *p, s as int),
        -64 <= r <= 63,
{
    broadcast use bits::group_mem;

    let complex: u64 = if (s % 8 + s / 8) % 2 == 1 {
        EVEN_SQUARES
    } else {
        !EVEN_SQUARES
    };
    let w: u64 = info.pawns_of(c) & complex;
    proof {
        let u = hemming(*info, c, s as int);
        assert forall|t: int| 0 <= t < 64 implies #[trigger] bits::mem(w, t) == u(t) by {
            lemma_even(t);
        }
        sums::lemma_how_many(w, u);
    }
    let n: i32 = bits::count(w) as i32 - 1;
    let m: i32 = if n > 0 {
        n
    } else {
        0
    };
    if m < p.bad_bishop_cap {
        m
    } else {
        p.bad_bishop_cap
    }
}

/// The size of what the pawns around bishops cost.
proof fn lemma_hemmed(w: u64, info: PawnInfo, c: Color, p: EvalParams, f: int)
    requires
        p.wf(),
        0 <= f < 2,
    ensures
        -(262144 * bits::ones(w)) <= sums::over(w, hemmed(info, c, p, f)) <= 262144
            * bits::ones(w),
        bits::ones(w) <= 64,
        forall|s: int| -262144 <= #[trigger] hemmed(info, c, p, f)(s) <= 262144,
{
    assert(params::pair_at_most(p.bad_bishop_pawn, 4096));
    assert forall|s: int| -262144 <= #[trigger] hemmed(info, c, p, f)(s) <= 262144 by {
        sums::lemma_how_many_range(hemming(info, c, s));
        let e = excess(info, c, p, s);
        let x = p.bad_bishop_pawn@[f] as int;
        assert(-262144 <= e * x <= 262144) by (nonlinear_arith)
            requires
                -64 <= e <= 64,
                -4096 <= x <= 4096,
        ;
    }
    assert forall|s: int| #[trigger] bits::mem(w, s) implies -262144 <= hemmed(info, c, p, f)(s)
        <= 262144 by {}
    sums::lemma_over_bound(w, hemmed(info, c, p, f), 262144);
    bits::lemma_ones_set(w);
}

/// What the pawns around a side's bishops cost.
fn bad_bishop_of(board: &Placement, info: &PawnInfo, c: Color, p: &EvalParams) -> (r: Score)
    requires
        p.wf(),
    ensures
        r.mg == bad_bishops(*board, *info, c, *p, 0),
        r.eg == bad_bishops(*board, *info, c, *p, 1),
        -16777216 <= r.mg <= 16777216,
        -16777216 <= r.eg <= 16777216,
{
    let ghost fm = hemmed(*info, c, *p, 0);
    let ghost fe = hemmed(*info, c, *p, 1);
    let w: u64 = board.by_piece(c, Role::Bishop);
    let mut bb: u64 = w;
    let mut mg: i32 = 0;
    let mut eg: i32 = 0;
    proof {
        lemma_hemmed(w, *info, c, *p, 0);
        lemma_hemmed(w, *info, c, *p, 1);
    }
    while bb != 0
        invariant
            p.wf(),
            fm == hemmed(*info, c, *p, 0),
            fe == hemmed(*info, c, *p, 1),
            mg + sums::over(bb, fm) == sums::over(w, fm),
            eg + sums::over(bb, fe) == sums::over(w, fe),
            -16777216 <= sums::over(w, fm) <= 16777216,
            -16777216 <= sums::over(w, fe) <= 16777216,
        decreases bb,
    {
        proof {
            sums::lemma_over_step(bb, fm);
            sums::lemma_over_step(bb, fe);
            lemma_hemmed(bb, *info, c, *p, 0);
            lemma_hemmed(bb, *info, c, *p, 1);
            lemma_hemmed(bits::rest(bb), *info, c, *p, 0);
            lemma_hemmed(bits::rest(bb), *info, c, *p, 1);
        }
        let s: usize = pop_lsb(&mut bb);
        let e: i32 = excess_of(info, c, p, s);
        proof {
            assert(-262144 <= fm(s as int) <= 262144);
            assert(-262144 <= fe(s as int) <= 262144);
        }
        mg = mg + e * p.bad_bishop_pawn[0];
        eg = eg + e * p.bad_bishop_pawn[1];
    }
    proof {
        sums::lemma_over_none(fm);
        sums::lemma_over_none(fe);
    }
    Score::new(mg, eg)
}

// --- development ------------------------------------------------------------------------------

/// A knight or a bishop of the side stands on a home square of either.
pub open spec fn undeveloped(b: Placement, c: Color) -> spec_fn(int) -> bool {
    |s: int|
        (bits::mem(evaluation::word(b, c, Role::Knight), s) || bits::mem(
            evaluation::word(b, c, Role::Bishop),
            s,
        )) && evaluation::level(c, s) == 0 && (s % 8 == 1 || s % 8 == 2 || s % 8 == 5 || s % 8 == 6)
}

/// The home squares of knights and bishops on a rank.
fn homes(c: Color, f: u8, g: u8) -> (r: u64)
    requires
        f < 8,
        g < 8,
    ensures
        forall|s: int| #[trigger]
            bits::mem(r, s) == (0 <= s < 64 && evaluation::level(c, s) == 0 && (s % 8 == f || s % 8
                == g)),
{
    broadcast use bits::group_mem;

    let rank: u64 = match c {
        Color::White => rank_mask(0),
        Color::Black => rank_mask(7),
    };
    rank & (file_mask(f) | file_mask(g))
}

/// How many knights and bishops of a side stand on home squares.
fn undeveloped_count(board: &Placement, c: Color) -> (r: u32)
    ensures
        r == sums::how_many(undeveloped(*board, c)),
        r <= 64,
{
    broadcast use bits::group_mem;

    let w: u64 = (board.by_piece(c, Role::Knight) | board.by_piece(c, Role::Bishop)) & (homes(
        c,
        1,
        6,
    ) | homes(c, 2, 5));
    proof {
        let u = undeveloped(*board, c);
        assert forall|t: int| 0 <= t < 64 implies #[trigger] bits::mem(w, t) == u(t) by {}
        sums::lemma_how_many(w, u);
    }
    bits::count(w)
}

/// A piece of the side stands on another square than its home squares, which are
/// on the files `f` and `g`.
pub open spec fn out(b: Placement, c: Color, role: Role, f: int, g: int) -> bool {
    exists|s: int| #[trigger]
        bits::mem(evaluation::word(b, c, role), s) && !(evaluation::level(c, s) == 0 && (s % 8 == f
            || s % 8 == g))
}

/// A knight and a bishop of the side are both developed.
pub open spec fn coordinated(b: Placement, c: Color) -> bool {
    out(b, c, Role::Knight, 1, 6) && out(b, c, Role::Bishop, 2, 5)
}

fn is_out(board: &Placement, c: Color, role: Role, f: u8, g: u8) -> (r: bool)
    requires
        f < 8,
        g < 8,
    ensures
        r == out(*board, c, role, f as int, g as int),
{
    broadcast use bits::group_mem;

    let w: u64 = board.by_piece(c, role);
    let away: u64 = !homes(c, f, g);
    let r: bool = bits::meets(w, away);
    proof {
        if r {
            let s = choose|s: int| #[trigger] bits::mem(w, s) && bits::mem(away, s);
            assert(bits::mem(evaluation::word(*board, c, role), s));
        }
        if out(*board, c, role, f as int, g as int) {
            let s = choose|s: int| #[trigger]
                bits::mem(evaluation::word(*board, c, role), s) && !(evaluation::level(c, s) == 0
                    && (s % 8 == f || s % 8 == g));
            assert(bits::mem(w, s) && bits::mem(away, s));
        }
    }
    r
}

// --- rooks and queens -------------------------------------------------------------------------

/// The side has two rooks, on one rank with nothing between them.
pub open spec fn rooks_together(b: Placement, c: Color) -> bool {
    evaluation::number(b, c, Role::Rook) == 2 && exists|s: int, t: int|
        #![trigger geometry::clear(s, t, b.white | b.black)]
        bits::mem(evaluation::word(b, c, Role::Rook), s) && bits::mem(
            evaluation::word(b, c, Role::Rook),
            t,
        ) && s < t && s / 8 == t / 8 && geometry::clear(s, t, b.white | b.black)
}

/// The squares strictly between two squares of one rank.
pub fn between_on_rank(a: usize, b: usize) -> (r: u64)
    requires
        a < b < 64,
        a / 8 == b / 8,
    ensures
        forall|x: int| #[trigger] bits::mem(r, x) == geometry::between(a as int, x, b as int),
{
    broadcast use bits::group_mem;

    let mut m: u64 = 0;
    let mut x: usize = a + 1;
    while x < b
        invariant
            a < x <= b < 64,
            forall|t: int| #[trigger] bits::mem(m, t) == (a < t < x),
        decreases b - x,
    {
        broadcast use bits::group_mem;

        m = m | square_bb(x);
        x = x + 1;
    }
    m
}

fn are_together(board: &Placement, c: Color) -> (r: bool)
    ensures
        r == rooks_together(*board, c),
{
    broadcast use bits::group_mem;

    let w: u64 = board.by_piece(c, Role::Rook);
    if bits::count(w) != 2 {
        return false;
    }
    proof {
        assert(bits::ones(w) == 1 + bits::ones(bits::rest(w)));
        assert(bits::ones(0) == 0);
    }
    let mut bb: u64 = w;
    let a: usize = pop_lsb(&mut bb);
    let ghost one = bb;
    let b: usize = pop_lsb(&mut bb);
    proof {
        assert(bits::ones(w) == 1 + bits::ones(one));
        assert(bits::ones(one) == 1 + bits::ones(bb));
        bits::lemma_nonzero(bb);
        assert forall|s: int| #[trigger] bits::mem(w, s) implies s == a || s == b by {
            if s != a {
                assert(bits::mem(one, s));
                if s != b {
                    assert(bits::mem(bb, s));
                    if bb != 0 {
                        bits::lemma_lsb(bb);
                    }
                }
            }
        }
        assert(bits::mem(w, a as int) && bits::mem(w, b as int));
        assert(a < b);
    }
    if a / 8 != b / 8 {
        return false;
    }
    let occupied: u64 = board.occupied();
    let line: u64 = between_on_rank(a, b);
    let r: bool = !bits::meets(line, occupied);
    proof {
        if r {
            assert forall|x: int| #[trigger] geometry::between(a as int, x, b as int) implies !bits::mem(
                occupied,
                x,
            ) by {
                assert(bits::mem(line, x));
            }
            assert(geometry::clear(a as int, b as int, board.white | board.black));
        } else {
            let x = choose|x: int| #[trigger] bits::mem(line, x) && bits::mem(occupied, x);
            assert(geometry::between(a as int, x, b as int));
        }
    }
    r
}

/// A pawn of `w` stands ahead of `s` on its file.
pub open spec fn ahead(w: u64, c: Color, s: int) -> bool {
    exists|t: int| #[trigger]
        bits::mem(w, t) && t % 8 == s % 8 && evaluation::level(c, t) > evaluation::level(c, s)
}

fn is_ahead(w: u64, c: Color, s: usize) -> (r: bool)
    requires
        s < 64,
    ensures
        r == ahead(w, c, s as int),
{
    broadcast use bits::group_mem;

    let way: u64 = file_mask((s % 8) as u8) & beyond(s, c);
    let r: bool = bits::meets(w, way);
    proof {
        if r {
            let t = choose|t: int| #[trigger] bits::mem(w, t) && bits::mem(way, t);
            assert(t % 8 == s % 8);
        }
        if ahead(w, c, s as int) {
            let t = choose|t: int| #[trigger]
                bits::mem(w, t) && t % 8 == s % 8 && evaluation::level(c, t) > evaluation::level(
                    c,
                    s as int,
                );
            assert(bits::mem(way, t));
        }
    }
    r
}

/// A rook of the side stands behind a passed pawn: its own, or the enemy's.
pub open spec fn rook_behind(b: Placement, passed: PassedInfo, c: Color) -> spec_fn(int) -> bool {
    |s: int|
        bits::mem(evaluation::word(b, c, Role::Rook), s) && (ahead(passed.set(c), c, s) || ahead(
            passed.set(c.opposite()),
            c.opposite(),
            s,
        ))
}

/// A queen of the side stands behind a passed pawn of its own.
pub open spec fn queen_behind(b: Placement, passed: PassedInfo, c: Color) -> spec_fn(int) -> bool {
    |s: int|
        bits::mem(evaluation::word(b, c, Role::Queen), s) && ahead(passed.set(c), c, s)
}

/// A queen of the side is attacked by an enemy pawn.
pub open spec fn queen_hunted(b: Placement, info: PawnInfo, c: Color) -> spec_fn(int) -> bool {
    |s: int|
        bits::mem(evaluation::word(b, c, Role::Queen), s) && bits::mem(
            info.hits(c.opposite()),
            s,
        )
}

/// How many rooks of a side stand behind passed pawns.
fn rooks_behind(board: &Placement, passed: &PassedInfo, c: Color) -> (r: u32)
    ensures
        r == sums::how_many(rook_behind(*board, *passed, c)),
        r <= 64,
{
    broadcast use bits::group_mem;

    let ghost u = rook_behind(*board, *passed, c);
    let w: u64 = board.by_piece(c, Role::Rook);
    let mut bb: u64 = w;
    let mut out: u64 = 0;
    while bb != 0
        invariant
            u == rook_behind(*board, *passed, c),
            w == evaluation::word(*board, c, Role::Rook),
            forall|t: int| #[trigger] bits::mem(bb, t) ==> bits::mem(w, t),
            forall|t: int| #[trigger] bits::mem(out, t) == (!bits::mem(bb, t) && u(t)),
        decreases bb,
    {
        broadcast use bits::group_mem;

        let s: usize = pop_lsb(&mut bb);
        if is_ahead(passed.of(c), c, s) || is_ahead(passed.of(c.other()), c.other(), s) {
            out = out | square_bb(s);
        }
    }
    proof {
        sums::lemma_how_many(out, u);
    }
    bits::count(out)
}

/// How many queens of a side stand behind passed pawns.
fn queens_behind(board: &Placement, passed: &PassedInfo, c: Color) -> (r: u32)
    ensures
        r == sums::how_many(queen_behind(*board, *passed, c)),
        r <= 64,
{
    broadcast use bits::group_mem;

    let ghost u = queen_behind(*board, *passed, c);
    let w: u64 = board.by_piece(c, Role::Queen);
    let mut bb: u64 = w;
    let mut out: u64 = 0;
    while bb != 0
        invariant
            u == queen_behind(*board, *passed, c),
            w == evaluation::word(*board, c, Role::Queen),
            forall|t: int| #[trigger] bits::mem(bb, t) ==> bits::mem(w, t),
            forall|t: int| #[trigger] bits::mem(out, t) == (!bits::mem(bb, t) && u(t)),
        decreases bb,
    {
        broadcast use bits::group_mem;

        let s: usize = pop_lsb(&mut bb);
        if is_ahead(passed.of(c), c, s) {
            out = out | square_bb(s);
        }
    }
    proof {
        sums::lemma_how_many(out, u);
    }
    bits::count(out)
}

/// How many queens of a side are attacked by pawns.
fn queens_hunted(board: &Placement, info: &PawnInfo, c: Color) -> (r: u32)
    ensures
        r == sums::how_many(queen_hunted(*board, *info, c)),
        r <= 64,
{
    broadcast use bits::group_mem;

    let w: u64 = board.by_piece(c, Role::Queen) & info.pawn_attacks_of(c.other());
    proof {
        let u = queen_hunted(*board, *info, c);
        assert forall|t: int| 0 <= t < 64 implies #[trigger] bits::mem(w, t) == u(t) by {}
        sums::lemma_how_many(w, u);
    }
    bits::count(w)
}

// --- together -------------------------------------------------------------------------------

/// What the activity of a side's minor pieces is worth.
pub open spec fn minors(
    b: Placement,
    info: PawnInfo,
    c: Color,
    phase: int,
    p: EvalParams,
    f: int,
) -> int {
    sums::how_many(outpost(b, info, c, Role::Knight)) * p.knight_outpost@[f] + sums::how_many(
        outpost(b, info, c, Role::Bishop),
    ) * p.bishop_outpost@[f] + bad_bishops(b, info, c, p, f) + (if phase >= p.development_phase {
        sums::how_many(undeveloped(b, c)) * p.undeveloped@[f]
    } else {
        0
    }) + evaluation::where_so(coordinated(b, c), p.minor_coordination@[f])
}

/// What the activity of a side's rooks and queens is worth.
pub open spec fn majors(
    b: Placement,
    info: PawnInfo,
    passed: PassedInfo,
    c: Color,
    p: EvalParams,
    f: int,
) -> int {
    evaluation::where_so(rooks_together(b, c), p.rooks_connected@[f]) + sums::how_many(
        rook_behind(b, passed, c),
    ) * p.rook_behind_passed@[f] + sums::how_many(queen_behind(b, passed, c))
        * p.queen_behind_passed@[f] + sums::how_many(queen_hunted(b, info, c))
        * p.queen_under_pawn_attack@[f]
}

/// What the activity of a side's pieces is worth.
pub open spec fn half(
    b: Placement,
    info: PawnInfo,
    passed: PassedInfo,
    c: Color,
    phase: int,
    p: EvalParams,
    f: int,
) -> int {
    minors(b, info, c, phase, p, f) + majors(b, info, passed, c, p, f)
}

fn minors_of(board: &Placement, info: &PawnInfo, c: Color, phase: i32, p: &EvalParams) -> (r: Score)
    requires
        p.wf(),
    ensures
        r.mg == minors(*board, *info, c, phase as int, *p, 0),
        r.eg == minors(*board, *info, c, phase as int, *p, 1),
        -18000000 <= r.mg <= 18000000,
        -18000000 <= r.eg <= 18000000,
{
    let mut score: Score = times(outposts(board, info, c, Role::Knight), &p.knight_outpost) + times(
        outposts(board, info, c, Role::Bishop),
        &p.bishop_outpost,
    ) + bad_bishop_of(board, info, c, p);
    if phase >= p.development_phase {
        score = score + times(undeveloped_count(board, c), &p.undeveloped);
    }
    if is_out(board, c, Role::Knight, 1, 6) && is_out(board, c, Role::Bishop, 2, 5) {
        score = score + Score::new(p.minor_coordination[0], p.minor_coordination[1]);
    }
    score
}

fn majors_of(board: &Placement, info: &PawnInfo, passed: &PassedInfo, c: Color, p: &EvalParams) -> (r:
    Score)
    requires
        p.wf(),
    ensures
        r.mg == majors(*board, *info, *passed, c, *p, 0),
        r.eg == majors(*board, *info, *passed, c, *p, 1),
        -800000 <= r.mg <= 800000,
        -800000 <= r.eg <= 800000,
{
    let mut score: Score = times(rooks_behind(board, passed, c), &p.rook_behind_passed) + times(
        queens_behind(board, passed, c),
        &p.queen_behind_passed,
    ) + times(queens_hunted(board, info, c), &p.queen_under_pawn_attack);
    if are_together(board, c) {
        score = score + Score::new(p.rooks_connected[0], p.rooks_connected[1]);
    }
    score
}

/// What the activity of White's pieces is worth more than that of Black's.
pub fn evaluate_pieces(
    board: &Placement,
    info: &PawnInfo,
    passed: &PassedInfo,
    phase: i32,
    p: &EvalParams,
) -> (r: Score)
    requires
        p.wf(),
    ensures
        r.mg == half(*board, *info, *passed, Color::White, phase as int, *p, 0) - half(
            *board,
            *info,
            *passed,
            Color::Black,
            phase as int,
            *p,
            0,
        ),
        r.eg == half(*board, *info, *passed, Color::White, phase as int, *p, 1) - half(
            *board,
            *info,
            *passed,
            Color::Black,
            phase as int,
            *p,
            1,
        ),
{
    let white: Score = minors_of(board, info, Color::White, phase, p) + majors_of(
        board,
        info,
        passed,
        Color::White,
        p,
    );
    let black: Score = minors_of(board, info, Color::Black, phase, p) + majors_of(
        board,
        info,
        passed,
        Color::Black,
        p,
    );
    white - black
}

/// The size of what a side has on a board.
pub proof fn lemma_size(
    b: Placement,
    info: PawnInfo,
    passed: PassedInfo,
    c: Color,
    phase: int,
    p: EvalParams,
    f: int,
)
    requires
        b.wf(),
        p.wf(),
        0 <= f < 2,
    ensures
        -(1410 * 4096) <= half(b, info, passed, c, phase, p, f) <= 1410 * 4096,
{
    evaluation::lemma_number(b, c, Role::Bishop);
    lemma_hemmed(evaluation::word(b, c, Role::Bishop), info, c, p, f);
    lemma_times(outpost(b, info, c, Role::Knight), p.knight_outpost, f);
    lemma_times(outpost(b, info, c, Role::Bishop), p.bishop_outpost, f);
    lemma_times(undeveloped(b, c), p.undeveloped, f);
    lemma_times(rook_behind(b, passed, c), p.rook_behind_passed, f);
    lemma_times(queen_behind(b, passed, c), p.queen_behind_passed, f);
    lemma_times(queen_hunted(b, info, c), p.queen_under_pawn_attack, f);
    assert(params::pair_at_most(p.minor_coordination, 4096));
    assert(params::pair_at_most(p.rooks_connected, 4096));
}

proof fn lemma_times(u: spec_fn(int) -> bool, w: [i32; 2], f: int)
    requires
        params::pair_at_most(w, 4096),
        0 <= f < 2,
    ensures
        -(64 * 4096) <= sums::how_many(u) * w@[f] <= 64 * 4096,
{
    sums::lemma_how_many_range(u);
    arith::lemma_product(sums::how_many(u), w@[f] as int, 64, 4096);
}

} // verus!
