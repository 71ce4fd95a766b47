//! King safety: the pawns in front of the king, the attacks on the squares
//! around it, open files and holes beside it; and, in the endgame, how near it
//! is to the centre and to the enemy's passed pawns.
use vstd::prelude::*;
use crate::arith;
use crate::bits;
use crate::board::Placement;
use crate::evaluation;
use crate::evaluation::gap;
use crate::evaluation::mobility;
use crate::evaluation::mobility::attacked_by;
use crate::evaluation::params;
use crate::evaluation::params::EvalParams;
use crate::evaluation::passed_pawns;
use crate::evaluation::passed_pawns::is_passed;
use crate::evaluation::pawns;
use crate::evaluation::pawns::{adjacent_files, file_mask, rank_mask, PawnInfo};
use crate::evaluation::Score;
use crate::nnue::attacks;
use crate::nnue::attacks::pop_lsb;
use crate::nnue::board;
use crate::nnue::geometry;
use crate::nnue::types::Color;
use crate::sums;
use crate::types::Role;

verus! {

/// The lesser of two numbers.
pub open spec fn lesser(x: int, y: int) -> int {
    if x < y {
        x
    } else {
        y
    }
}

// --- the shield -----------------------------------------------------------------------------

/// A pawn of the side on a square `d` ranks in front of the king, on its file or
/// on one beside it.
pub open spec fn covers(info: PawnInfo, c: Color, k: int, d: int) -> spec_fn(int) -> bool {
    |t: int|
        bits::mem(info.pawns(c), t) && evaluation::level(c, t) == evaluation::level(c, k) + d && (t
            % 8 == k % 8 || evaluation::beside(k, t))
}

/// What the pawns `d` ranks in front of the king are worth.
pub open spec fn cover(info: PawnInfo, c: Color, k: int, p: EvalParams, d: int) -> int {
    sums::how_many(covers(info, c, k, d)) * p.shield_weight@[d - 1]
}

/// What the pawns in front of the king are worth.
pub open spec fn shield(info: PawnInfo, c: Color, k: int, p: EvalParams) -> int {
    lesser(
        cover(info, c, k, p, 1) + cover(info, c, k, p, 2) + cover(info, c, k, p, 3),
        p.shield_cap as int,
    )
}

/// What the pawns `d` ranks in front of the king are worth.
fn cover_of(info: &PawnInfo, c: Color, king: usize, p: &EvalParams, d: usize) -> (r: i32)
    requires
        p.wf(),
        king < 64,
        1 <= d <= 3,
    ensures
        r == cover(*info, c, king as int, *p, d as int),
        -262144 <= r <= 262144,
{
    broadcast use bits::group_mem;

    let rank: usize = king / 8;
    let ghost u = covers(*info, c, king as int, d as int);
    let seen: bool = match c {
        Color::White => rank + d < 8,
        Color::Black => rank >= d,
    };
    let w: u64 = if seen {
        let row: usize = match c {
            Color::White => rank + d,
            Color::Black => rank - d,
        };
        let f: u8 = (king % 8) as u8;
        info.pawns_of(c) & rank_mask(row as u8) & (file_mask(f) | adjacent_files(f))
    } else {
        0
    };
    let n: i32 = bits::count(w) as i32;
    proof {
        assert forall|t: int| 0 <= t < 64 implies #[trigger] bits::mem(w, t) == u(t) by {}
        sums::lemma_how_many(w, u);
        assert(params::at_most(p.shield_weight@[d - 1], 4096));
        arith::lemma_product(n as int, p.shield_weight@[d - 1] as int, 64, 4096);
    }
    n * p.shield_weight[d - 1]
}

/// What the pawns in front of the king are worth.
pub fn shield_bonus(info: &PawnInfo, c: Color, king: usize, p: &EvalParams) -> (r: i32)
    requires
        p.wf(),
        king < 64,
    ensures
        r == shield(*info, c, king as int, *p),
        -786432 <= r <= 4096,
{
    let bonus: i32 = cover_of(info, c, king, p, 1) + cover_of(info, c, king, p, 2) + cover_of(
        info,
        c,
        king,
        p,
        3,
    );
    if bonus < p.shield_cap {
        bonus
    } else {
        p.shield_cap
    }
}

// --- open files -----------------------------------------------------------------------------

/// What a file costs that has no pawn of the side: more where it has no pawn at
/// all, nothing off the board.
pub open spec fn file_cost(info: PawnInfo, c: Color, f: int, p: EvalParams) -> int {
    if f < 0 || f > 7 || pawns::on(info.files(c), f) {
        0
    } else {
        p.king_open_file + evaluation::where_so(
            !pawns::on(info.white_files, f) && !pawns::on(info.black_files, f),
            p.king_fully_open_file,
        )
    }
}

/// What the open files at the king cost.
pub open spec fn open_files(info: PawnInfo, c: Color, k: int, p: EvalParams) -> int {
    lesser(
        file_cost(info, c, k % 8 - 1, p) + file_cost(info, c, k % 8, p) + file_cost(
            info,
            c,
            k % 8 + 1,
            p,
        ),
        p.king_open_files_cap as int,
    )
}

/// Whether a mask has a file.
fn has_file(files: u8, f: usize) -> (r: bool)
    ensures
        r == pawns::on(files, f as int),
{
    bits::contains(files as u64, f)
}

fn file_cost_of(info: &PawnInfo, c: Color, f: usize, p: &EvalParams) -> (r: i32)
    requires
        p.wf(),
        f < 8,
    ensures
        r == file_cost(*info, c, f as int, *p),
        -8192 <= r <= 8192,
{
    if has_file(info.files_of(c), f) {
        return 0;
    }
    let mut cost: i32 = p.king_open_file;
    if !has_file(info.white_files, f) && !has_file(info.black_files, f) {
        cost = cost + p.king_fully_open_file;
    }
    cost
}

/// What the open files at the king cost.
pub fn open_files_near_king(info: &PawnInfo, c: Color, king: usize, p: &EvalParams) -> (r: i32)
    requires
        p.wf(),
        king < 64,
    ensures
        r == open_files(*info, c, king as int, *p),
        -24576 <= r <= 4096,
{
    let f: usize = king % 8;
    let mut cost: i32 = file_cost_of(info, c, f, p);
    if f > 0 {
        cost = cost + file_cost_of(info, c, f - 1, p);
    }
    if f < 7 {
        cost = cost + file_cost_of(info, c, f + 1, p);
    }
    if cost < p.king_open_files_cap {
        cost
    } else {
        p.king_open_files_cap
    }
}

// --- the ring -------------------------------------------------------------------------------

/// `t` is next to the king, or in front of such a square.
pub open spec fn in_ring(c: Color, k: int, t: int) -> bool {
    0 <= t < 64 && (geometry::king_step(k, t) || geometry::king_step(
        k,
        evaluation::front(c.opposite(), t),
    ))
}

/// The squares around the king.
pub fn ring_of(king: usize, c: Color) -> (r: u64)
    requires
        king < 64,
    ensures
        forall|t: int| #[trigger] bits::mem(r, t) == in_ring(c, king as int, t),
{
    broadcast use bits::group_mem;

    let near: u64 = attacks::attacks_bb(6, king, 0);
    let ahead: u64 = match c {
        Color::White => near << 8,
        Color::Black => near >> 8,
    };
    proof {
        assert forall|t: int| #[trigger] bits::mem(near | ahead, t) == in_ring(
            c,
            king as int,
            t,
        ) by {
            bits::mem_shl(near, 8, t);
            bits::mem_shr(near, 8, t);
        }
    }
    near | ahead
}

/// Where the squares of the ring lie.
proof fn lemma_in_ring(c: Color, k: int, t: int)
    requires
        in_ring(c, k, t),
    ensures
        -1 <= t % 8 - k % 8 <= 1,
        -1 <= evaluation::level(c, t) - evaluation::level(c, k) <= 2,
        0 <= t < 64,
{
}

/// The ring has at most twelve squares.
proof fn lemma_ring(w: u64, c: Color, k: int)
    requires
        forall|t: int| #[trigger] bits::mem(w, t) ==> in_ring(c, k, t),
    ensures
        bits::ones(w) <= 12,
{
    let f = |t: int| place(c, k, t);
    assert forall|t: int| #[trigger] bits::mem(w, t) implies 0 <= f(t) < 12 by {
        lemma_in_ring(c, k, t);
    }
    assert forall|s: int, t: int|
        #![trigger bits::mem(w, s), bits::mem(w, t)]
        bits::mem(w, s) && bits::mem(w, t) && f(s) == f(t) implies s == t by {
        lemma_in_ring(c, k, s);
        lemma_in_ring(c, k, t);
        lemma_place(c, k, s, t);
    }
    bits::lemma_ones_numbered(w, f, 12);
}

/// The number of a square of the ring.
spec fn place(c: Color, k: int, t: int) -> int {
    (t % 8 - k % 8 + 1) + 3 * (evaluation::level(c, t) - evaluation::level(c, k) + 1)
}

proof fn lemma_place(c: Color, k: int, s: int, t: int)
    requires
        place(c, k, s) == place(c, k, t),
        -1 <= s % 8 - k % 8 <= 1,
        -1 <= t % 8 - k % 8 <= 1,
    ensures
        s == t,
{
    assert(s % 8 == t % 8);
    assert(evaluation::level(c, s) == evaluation::level(c, t));
}

/// An enemy pawn attacks a square of the ring that no own pawn attacks.
pub open spec fn hole(info: PawnInfo, c: Color, k: int) -> spec_fn(int) -> bool {
    |t: int|
        in_ring(c, k, t) && bits::mem(info.hits(c.opposite()), t) && !bits::mem(info.hits(c), t)
}

/// What the holes beside the king cost.
pub open spec fn holes(info: PawnInfo, c: Color, k: int, p: EvalParams) -> int {
    lesser(sums::how_many(hole(info, c, k)) * p.king_hole, p.king_holes_cap as int)
}

/// What the holes beside the king cost.
pub fn king_holes(info: &PawnInfo, c: Color, king: usize, p: &EvalParams) -> (r: i32)
    requires
        p.wf(),
        king < 64,
    ensures
        r == holes(*info, c, king as int, *p),
        -262144 <= r <= 4096,
{
    broadcast use bits::group_mem;

    let w: u64 = info.pawn_attacks_of(c.other()) & ring_of(king, c) & !info.pawn_attacks_of(c);
    let n: i32 = bits::count(w) as i32;
    proof {
        let u = hole(*info, c, king as int);
        assert forall|t: int| 0 <= t < 64 implies #[trigger] bits::mem(w, t) == u(t) by {}
        sums::lemma_how_many(w, u);
        arith::lemma_product(n as int, p.king_hole as int, 64, 4096);
    }
    let cost: i32 = n * p.king_hole;
    if cost < p.king_holes_cap {
        cost
    } else {
        p.king_holes_cap
    }
}

// --- attacks on the ring ----------------------------------------------------------------------

/// The enemy's pieces of a kind attack a square of the ring.
pub open spec fn presses(b: Placement, info: PawnInfo, c: Color, k: int, role: Role) -> spec_fn(
    int,
) -> bool {
    |t: int|
        in_ring(c, k, t) && (if role == Role::Pawn {
            evaluation::word(b, c.opposite(), Role::Pawn) != 0 && bits::mem(
                info.hits(c.opposite()),
                t,
            )
        } else {
            mobility::hit_by(b, c.opposite(), role, t)
        })
}

/// How many squares of the ring the enemy's pieces of a kind attack.
pub open spec fn pressed(b: Placement, info: PawnInfo, c: Color, k: int, role: Role) -> int {
    sums::how_many(presses(b, info, c, k, role))
}

/// What the attacks of the enemy's pieces of a kind weigh.
pub open spec fn weight(
    b: Placement,
    info: PawnInfo,
    c: Color,
    k: int,
    p: EvalParams,
    role: Role,
) -> int {
    pressed(b, info, c, k, role) * p.attack_weight@[role.code_spec() as int]
}

/// What all attacks on the ring weigh.
pub open spec fn units(b: Placement, info: PawnInfo, c: Color, k: int, p: EvalParams) -> int {
    weight(b, info, c, k, p, Role::Pawn) + weight(b, info, c, k, p, Role::Knight) + weight(
        b,
        info,
        c,
        k,
        p,
        Role::Bishop,
    ) + weight(b, info, c, k, p, Role::Rook) + weight(b, info, c, k, p, Role::Queen)
}

/// An enemy piece of a kind stands in the ring on `t`, and its kind attacks the
/// ring.
pub open spec fn intrudes(
    b: Placement,
    info: PawnInfo,
    c: Color,
    k: int,
    role: Role,
    t: int,
) -> bool {
    pressed(b, info, c, k, role) > 0 && bits::mem(evaluation::word(b, c.opposite(), role), t)
        && in_ring(c, k, t)
}

/// An enemy piece stands in the ring on a square, and its kind attacks the ring.
pub open spec fn intruder(b: Placement, info: PawnInfo, c: Color, k: int) -> spec_fn(int) -> bool {
    |t: int|
        intrudes(b, info, c, k, Role::Pawn, t) || intrudes(b, info, c, k, Role::Knight, t)
            || intrudes(b, info, c, k, Role::Bishop, t) || intrudes(b, info, c, k, Role::Rook, t)
            || intrudes(b, info, c, k, Role::Queen, t)
}

/// What the attacks on the ring cost: what they weigh, once more for every two
/// enemy pieces in the ring.
pub open spec fn danger(b: Placement, info: PawnInfo, c: Color, k: int, p: EvalParams) -> int {
    let u = units(b, info, c, k, p);
    if u <= 0 {
        0
    } else {
        u * (1 + sums::how_many(intruder(b, info, c, k)) / 2)
    }
}

/// What the enemy's pieces of a kind do to the ring: what their attacks weigh,
/// and which of them stand in it while there are attacks.
fn pressure(
    board: &Placement,
    info: &PawnInfo,
    c: Color,
    king: usize,
    ring: u64,
    p: &EvalParams,
    role: Role,
) -> (r: (i32, u64))
    requires
        p.wf(),
        king < 64,
        role != Role::King,
        forall|t: int| #[trigger] bits::mem(ring, t) == in_ring(c, king as int, t),
    ensures
        r.0 == weight(*board, *info, c, king as int, *p, role),
        -262144 <= r.0 <= 262144,
        forall|t: int| #[trigger]
            bits::mem(r.1, t) == intrudes(*board, *info, c, king as int, role, t),
{
    broadcast use bits::group_mem;

    let enemy: Color = c.other();
    let bb: u64 = board.by_piece(enemy, role);
    let ghost u = presses(*board, *info, c, king as int, role);
    let struck: u64 = match role {
        Role::Pawn => if bb == 0 {
            0
        } else {
            info.pawn_attacks_of(enemy)
        },
        _ => attacked_by(board, enemy, role),
    };
    let hitting: u64 = struck & ring;
    let n: i32 = bits::count(hitting) as i32;
    let i: usize = role.code() as usize;
    proof {
        assert forall|t: int| 0 <= t < 64 implies #[trigger] bits::mem(hitting, t) == u(t) by {}
        sums::lemma_how_many(hitting, u);
        assert(params::at_most(p.attack_weight@[i as int], 4096));
        arith::lemma_product(n as int, p.attack_weight@[i as int] as int, 64, 4096);
    }
    if n > 0 {
        (n * p.attack_weight[i], bb & ring)
    } else {
        proof {
            assert(0 * p.attack_weight@[i as int] == 0) by (nonlinear_arith);
        }
        (0, 0)
    }
}

/// What the attacks on the squares around the king cost.
#[verifier::spinoff_prover]
pub fn king_danger(
    board: &Placement,
    info: &PawnInfo,
    c: Color,
    king: usize,
    p: &EvalParams,
) -> (r: i32)
    requires
        p.wf(),
        king < 64,
    ensures
        r == danger(*board, *info, c, king as int, *p),
        0 <= r <= 43253760,
{
    broadcast use bits::group_mem;

    let ring: u64 = ring_of(king, c);
    let pawn: (i32, u64) = pressure(board, info, c, king, ring, p, Role::Pawn);
    let knight: (i32, u64) = pressure(board, info, c, king, ring, p, Role::Knight);
    let bishop: (i32, u64) = pressure(board, info, c, king, ring, p, Role::Bishop);
    let rook: (i32, u64) = pressure(board, info, c, king, ring, p, Role::Rook);
    let queen: (i32, u64) = pressure(board, info, c, king, ring, p, Role::Queen);
    let weighed: i32 = pawn.0 + knight.0 + bishop.0 + rook.0 + queen.0;
    if weighed <= 0 {
        return 0;
    }
    let inside: u64 = pawn.1 | knight.1 | bishop.1 | rook.1 | queen.1;
    let n: i32 = bits::count(inside) as i32;
    proof {
        let u = intruder(*board, *info, c, king as int);
        assert forall|t: int| 0 <= t < 64 implies #[trigger] bits::mem(inside, t) == u(t) by {}
        sums::lemma_how_many(inside, u);
        assert(0 <= weighed * (1 + n / 2) <= 33 * 1310720) by (nonlinear_arith)
            requires
                0 < weighed <= 1310720,
                0 <= n / 2 <= 32,
        ;
    }
    weighed * (1 + n / 2)
}

// --- the endgame ----------------------------------------------------------------------------

/// The greater distance of a coordinate from the two middle ones.
pub open spec fn off_centre(x: int) -> int {
    if x <= 3 {
        4 - x
    } else {
        x - 3
    }
}

/// How far the king is from the file of an enemy pawn that is passed.
pub open spec fn race(info: PawnInfo, c: Color, k: int) -> spec_fn(int) -> int {
    |s: int|
        if passed_pawns::passed(info.pawns(c), c.opposite(), s) {
            evaluation::apart(s % 8, k % 8)
        } else {
            0
        }
}

/// What the king's place is worth in the endgame.
pub open spec fn activity(info: PawnInfo, c: Color, k: int, p: EvalParams) -> int {
    (4 - off_centre(k % 8) - off_centre(k / 8)) * p.king_center_bonus - sums::over(
        info.pawns(c.opposite()),
        race(info, c, k),
    ) * p.king_passer_dist_penalty
}

/// How far a coordinate is from the middle.
fn from_centre(x: usize) -> (r: i32)
    requires
        x < 8,
    ensures
        r == off_centre(x as int),
        1 <= r <= 4,
{
    if x <= 3 {
        4 - x as i32
    } else {
        x as i32 - 3
    }
}

/// The size of the way to passed pawns.
proof fn lemma_race(w: u64, info: PawnInfo, c: Color, k: int)
    ensures
        0 <= sums::over(w, race(info, c, k)) <= 7 * bits::ones(w),
        bits::ones(w) <= 64,
    decreases w,
{
    let f = race(info, c, k);
    bits::lemma_ones_set(w);
    if w == 0 {
        sums::lemma_over_none(f);
    } else {
        bits::lemma_lsb(w);
        sums::lemma_over_step(w, f);
        lemma_race(bits::rest(w), info, c, k);
        assert(bits::ones(w) == 1 + bits::ones(bits::rest(w)));
        assert(0 <= f(bits::lsb(w)) <= 7);
    }
}

/// What the king's place is worth in the endgame.
pub fn king_endgame_bonus(info: &PawnInfo, c: Color, king: usize, p: &EvalParams) -> (r: i32)
    requires
        p.wf(),
        king < 64,
    ensures
        r == activity(*info, c, king as int, *p),
        -1900000 <= r <= 1900000,
{
    let enemy: Color = c.other();
    let own: u64 = info.pawns_of(c);
    let w: u64 = info.pawns_of(enemy);
    let ghost f = race(*info, c, king as int);
    let mut bb: u64 = w;
    let mut way: i32 = 0;
    proof {
        lemma_race(w, *info, c, king as int);
    }
    while bb != 0
        invariant
            king < 64,
            enemy == c.opposite(),
            own == info.pawns(c),
            f == race(*info, c, king as int),
            way + sums::over(bb, f) == sums::over(w, f),
            0 <= sums::over(w, f) <= 448,
        decreases bb,
    {
        proof {
            sums::lemma_over_step(bb, f);
            lemma_race(bb, *info, c, king as int);
            lemma_race(bits::rest(bb), *info, c, king as int);
        }
        let s: usize = pop_lsb(&mut bb);
        if is_passed(s, enemy, own) {
            way = way + gap(s % 8, king % 8) as i32;
        }
    }
    proof {
        sums::lemma_over_none(f);
        let n = 4 - off_centre(king as int % 8) - off_centre(king as int / 8);
        assert(-16384 <= n * p.king_center_bonus <= 16384) by (nonlinear_arith)
            requires
                -4 <= n <= 2,
                -4096 <= p.king_center_bonus <= 4096,
        ;
        arith::lemma_product(way as int, p.king_passer_dist_penalty as int, 448, 4096);
    }
    let n: i32 = 4 - from_centre(king % 8) - from_centre(king / 8);
    n * p.king_center_bonus - way * p.king_passer_dist_penalty
}

// --- together -------------------------------------------------------------------------------

/// What the safety of a side's king is worth; nothing without a king.
pub open spec fn half(b: Placement, info: PawnInfo, c: Color, p: EvalParams, f: int) -> int {
    let k = b.king_sq(c);
    if k == 64 {
        0
    } else if f == 0 {
        shield(info, c, k, p) - danger(b, info, c, k, p) - open_files(info, c, k, p) - holes(
            info,
            c,
            k,
            p,
        )
    } else {
        activity(info, c, k, p)
    }
}

/// What the safety of a side's king is worth.
fn side(board: &Placement, info: &PawnInfo, c: Color, p: &EvalParams) -> (r: Score)
    requires
        p.wf(),
    ensures
        r.mg == half(*board, *info, c, *p, 0),
        r.eg == half(*board, *info, c, *p, 1),
        -50000000 <= r.mg <= 50000000,
        -50000000 <= r.eg <= 50000000,
{
    match board.king_of(c) {
        Some(king) => {
            let mg: i32 = shield_bonus(info, c, king, p) - king_danger(board, info, c, king, p)
                - open_files_near_king(info, c, king, p) - king_holes(info, c, king, p);
            Score::new(mg, king_endgame_bonus(info, c, king, p))
        },
        None => Score::zero(),
    }
}

/// The size of what a side has on a board.
pub proof fn lemma_size(b: Placement, info: PawnInfo, c: Color, p: EvalParams, f: int)
    requires
        b.wf(),
        p.wf(),
        info.describes(b),
        0 <= f < 2,
    ensures
        -(900 * 4096) <= half(b, info, c, p, f) <= 900 * 4096,
{
    broadcast use bits::group_mem;

    let k = b.king_sq(c);
    let e = c.opposite();
    if k != 64 {
        bits::lemma_lsb(b.kings & b.side(c));
        lemma_cover_size(info, c, k, p, 1);
        lemma_cover_size(info, c, k, p, 2);
        lemma_cover_size(info, c, k, p, 3);
        lemma_danger_size(b, info, c, k, p);
        sums::lemma_how_many_range(hole(info, c, k));
        arith::lemma_product(sums::how_many(hole(info, c, k)), p.king_hole as int, 64, 4096);
        evaluation::lemma_number(b, e, Role::Pawn);
        lemma_race(info.pawns(e), info, c, k);
        let way = sums::over(info.pawns(e), race(info, c, k));
        arith::lemma_product(way, p.king_passer_dist_penalty as int, 112, 4096);
        let n = 4 - off_centre(k % 8) - off_centre(k / 8);
        assert(-16384 <= n * p.king_center_bonus <= 16384) by (nonlinear_arith)
            requires
                -4 <= n <= 2,
                -4096 <= p.king_center_bonus <= 4096,
        ;
    }
}

proof fn lemma_cover_size(info: PawnInfo, c: Color, k: int, p: EvalParams, d: int)
    requires
        p.wf(),
        1 <= d <= 3,
    ensures
        -(64 * 4096) <= cover(info, c, k, p, d) <= 64 * 4096,
{
    sums::lemma_how_many_range(covers(info, c, k, d));
    assert(params::at_most(p.shield_weight@[d - 1], 4096));
    arith::lemma_product(
        sums::how_many(covers(info, c, k, d)),
        p.shield_weight@[d - 1] as int,
        64,
        4096,
    );
}

/// Squares with a property that all lie in the ring.
proof fn lemma_in_ring_count(c: Color, k: int, u: spec_fn(int) -> bool)
    requires
        forall|t: int| #[trigger] u(t) ==> in_ring(c, k, t),
    ensures
        0 <= sums::how_many(u) <= 12,
{
    let w = board::word_of(u);
    board::lemma_word_exists(u);
    sums::lemma_how_many(w, u);
    assert forall|t: int| #[trigger] bits::mem(w, t) implies in_ring(c, k, t) by {
        assert(u(t));
    }
    lemma_ring(w, c, k);
}

proof fn lemma_danger_size(b: Placement, info: PawnInfo, c: Color, k: int, p: EvalParams)
    requires
        p.wf(),
    ensures
        0 <= danger(b, info, c, k, p) <= 420 * 4096,
{
    lemma_weight_size(b, info, c, k, p, Role::Pawn);
    lemma_weight_size(b, info, c, k, p, Role::Knight);
    lemma_weight_size(b, info, c, k, p, Role::Bishop);
    lemma_weight_size(b, info, c, k, p, Role::Rook);
    lemma_weight_size(b, info, c, k, p, Role::Queen);
    let v = intruder(b, info, c, k);
    assert forall|t: int| #[trigger] v(t) implies in_ring(c, k, t) by {}
    lemma_in_ring_count(c, k, v);
    let u = units(b, info, c, k, p);
    let n = sums::how_many(v);
    if u > 0 {
        assert(0 <= u * (1 + n / 2) <= 7 * (60 * 4096)) by (nonlinear_arith)
            requires
                0 < u <= 60 * 4096,
                0 <= n / 2 <= 6,
        ;
    }
}

proof fn lemma_weight_size(
    b: Placement,
    info: PawnInfo,
    c: Color,
    k: int,
    p: EvalParams,
    role: Role,
)
    requires
        p.wf(),
    ensures
        -(12 * 4096) <= weight(b, info, c, k, p, role) <= 12 * 4096,
{
    let v = presses(b, info, c, k, role);
    assert forall|t: int| #[trigger] v(t) implies in_ring(c, k, t) by {}
    lemma_in_ring_count(c, k, v);
    assert(params::at_most(p.attack_weight@[role.code_spec() as int], 4096));
    arith::lemma_product(
        sums::how_many(v),
        p.attack_weight@[role.code_spec() as int] as int,
        12,
        4096,
    );
}

/// What the safety of White's king is worth more than that of Black's.
pub fn evaluate_king_safety(board: &Placement, info: &PawnInfo, p: &EvalParams) -> (r: Score)
    requires
        p.wf(),
    ensures
        r.mg == half(*board, *info, Color::White, *p, 0) - half(*board, *info, Color::Black, *p, 0),
        r.eg == half(*board, *info, Color::White, *p, 1) - half(*board, *info, Color::Black, *p, 1),
{
    side(board, info, Color::White, p) - side(board, info, Color::Black, p)
}

} // verus!
