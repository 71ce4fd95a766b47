//! Attack sets: leapers, pawns, sliders past blockers, and the lines that
//! sliders pass through.
//!
//! Squares are numbered `a1 = 0`, `h1 = 7`, `a8 = 56`, `h8 = 63`.
use vstd::prelude::*;
use crate::bits;
use crate::nnue::geometry;
use crate::nnue::types::{Bitboard, Color, BISHOP, KING, KNIGHT, QUEEN, ROOK, SQ_NONE};

verus! {

/// The a-file.
pub const FILE_A: Bitboard = 0x0101_0101_0101_0101;

/// The b-file.
pub const FILE_B: Bitboard = 0x0202_0202_0202_0202;

/// The c-file.
pub const FILE_C: Bitboard = 0x0404_0404_0404_0404;

/// The d-file.
pub const FILE_D: Bitboard = 0x0808_0808_0808_0808;

/// The e-file.
pub const FILE_E: Bitboard = 0x1010_1010_1010_1010;

/// The f-file.
pub const FILE_F: Bitboard = 0x2020_2020_2020_2020;

/// The g-file.
pub const FILE_G: Bitboard = 0x4040_4040_4040_4040;

/// The h-file.
pub const FILE_H: Bitboard = 0x8080_8080_8080_8080;

/// The first rank.
pub const RANK_1: Bitboard = 0xff;

/// The eighth rank.
pub const RANK_8: Bitboard = 0xff00_0000_0000_0000;

/// The "square absent" marker of the change records.
pub const NO_SQ: usize = SQ_NONE;

/// Which squares a file mask holds.
pub proof fn lemma_file_mask(f: u64, t: int)
    requires
        f < 8,
    ensures
        bits::mem(FILE_A << f, t) == (geometry::on_board(t) && geometry::fl(t) == f),
{
    if 0 <= t < 64 {
        let i = t as u64;
        assert(f < 8 && i < 64 ==> (((0x0101_0101_0101_0101u64 << f) >> i) & 1u64 == 1u64 <==> i % 8
            == f)) by (bit_vector);
    }
}

/// Which squares the masks of the board's edges hold.
pub proof fn lemma_edge_masks(t: int)
    ensures
        bits::mem(FILE_A, t) == (geometry::on_board(t) && geometry::fl(t) == 0),
        bits::mem(FILE_H, t) == (geometry::on_board(t) && geometry::fl(t) == 7),
        bits::mem(RANK_1, t) == (geometry::on_board(t) && geometry::rk(t) == 0),
        bits::mem(RANK_8, t) == (geometry::on_board(t) && geometry::rk(t) == 7),
{
    if 0 <= t < 64 {
        let i = t as u64;
        assert(i < 64 ==> ((0xffu64 >> i) & 1u64 == 1u64 <==> i < 8) && ((
        0xff00_0000_0000_0000u64 >> i) & 1u64 == 1u64 <==> i >= 56) && ((
        0x0101_0101_0101_0101u64 >> i) & 1u64 == 1u64 <==> i % 8 == 0) && ((
        0x8080_8080_8080_8080u64 >> i) & 1u64 == 1u64 <==> i % 8 == 7)) by (bit_vector);
    }
}

/// The set of one square.
pub fn square_bb(s: usize) -> (r: Bitboard)
    requires
        s < 64,
    ensures
        r == 1u64 << (s as u64),
        forall|t: int| #[trigger] bits::mem(r, t) == (t == s),
{
    broadcast use bits::group_mem;

    1u64 << (s as u64)
}

/// Takes the lowest square off the set and returns it.
pub fn pop_lsb(bb: &mut Bitboard) -> (s: usize)
    requires
        *old(bb) != 0,
    ensures
        s == bits::lsb(*old(bb)),
        s < 64,
        bits::mem(*old(bb), s as int),
        *final(bb) == bits::rest(*old(bb)),
        *final(bb) < *old(bb),
        forall|t: int| #[trigger]
            bits::mem(*final(bb), t) == (bits::mem(*old(bb), t) && t != s),
{
    proof {
        bits::lemma_lsb(*bb);
    }
    let s: usize = bb.trailing_zeros() as usize;
    *bb = *bb & (*bb - 1);
    s
}

proof fn lemma_coordinates(s: usize)
    by (bit_vector)
    ensures
        s & 7 == s % 8,
        s >> 3 == s / 8,
{
}

/// File of a square, 0 for the a-file.
pub fn file_of(s: usize) -> (r: usize)
    ensures
        r == s % 8,
{
    proof {
        lemma_coordinates(s);
    }
    s & 7
}

/// Rank of a square, 0 for the first rank.
pub fn rank_of(s: usize) -> (r: usize)
    ensures
        r == s / 8,
{
    proof {
        lemma_coordinates(s);
    }
    s >> 3
}

/// The square `df` files and `dr` ranks from `s`, or nothing off the board.
fn step_bb(s: usize, df: i32, dr: i32) -> (r: Bitboard)
    requires
        s < 64,
        -2 <= df <= 2,
        -2 <= dr <= 2,
    ensures
        forall|t: int| #[trigger]
            bits::mem(r, t) == (geometry::on_board(t) && geometry::fl(t) == geometry::fl(s as int)
                + df && geometry::rk(t) == geometry::rk(s as int) + dr),
{
    broadcast use bits::group_mem;

    let f: i32 = (s % 8) as i32 + df;
    let r: i32 = (s / 8) as i32 + dr;
    if 0 <= f && f < 8 && 0 <= r && r < 8 {
        square_bb((r * 8 + f) as usize)
    } else {
        0
    }
}

/// The squares of one ray from `s`, up to and with the first blocker.
fn ray_attacks(s: usize, df: i32, dr: i32, occupied: Bitboard) -> (bb: Bitboard)
    requires
        s < 64,
        geometry::direction(df as int, dr as int),
    ensures
        forall|t: int| #[trigger]
            bits::mem(bb, t) == (geometry::on_ray(s as int, df as int, dr as int, t)
                && geometry::clear(s as int, t, occupied)),
{
    broadcast use bits::group_mem;

    let f: i32 = (s % 8) as i32;
    let r: i32 = (s / 8) as i32;
    let mut nf: i32 = f + df;
    let mut nr: i32 = r + dr;
    let mut bb: u64 = 0;
    let mut open: bool = true;
    while open && 0 <= nf && nf < 8 && 0 <= nr && nr < 8
        invariant
            s < 64,
            f == geometry::fl(s as int),
            r == geometry::rk(s as int),
            geometry::direction(df as int, dr as int),
            -1 <= nf <= 8,
            -1 <= nr <= 8,
            geometry::ray_at(f as int, r as int, df as int, dr as int, nf as int, nr as int),
            forall|t: int| #[trigger]
                bits::mem(bb, t) == (geometry::on_ray(s as int, df as int, dr as int, t)
                    && geometry::reach(f as int, r as int, geometry::fl(t), geometry::rk(t))
                    < geometry::reach(f as int, r as int, nf as int, nr as int)),
            forall|t: int|
                #![trigger bits::mem(occupied, t)]
                geometry::on_ray(s as int, df as int, dr as int, t) && geometry::reach(
                    f as int,
                    r as int,
                    geometry::fl(t),
                    geometry::rk(t),
                ) + (if open {
                    0int
                } else {
                    1
                }) < geometry::reach(f as int, r as int, nf as int, nr as int) ==> !bits::mem(
                    occupied,
                    t,
                ),
            !open ==> exists|b: int|
                geometry::on_ray(s as int, df as int, dr as int, b) && #[trigger] bits::mem(
                    occupied,
                    b,
                ) && geometry::reach(f as int, r as int, geometry::fl(b), geometry::rk(b)) + 1
                    == geometry::reach(f as int, r as int, nf as int, nr as int),
        decreases
                (if open {
                    1int
                } else {
                    0
                }),
                9 - geometry::reach(f as int, r as int, nf as int, nr as int),
    {
        let sq: usize = (nr * 8 + nf) as usize;
        assert(geometry::on_ray(s as int, df as int, dr as int, sq as int));
        let ghost before = bb;
        let here: Bitboard = square_bb(sq);
        bb = bb | here;
        proof {
            let dist = geometry::reach(f as int, r as int, nf as int, nr as int);
            assert forall|t: int| #[trigger]
                bits::mem(bb, t) == (geometry::on_ray(s as int, df as int, dr as int, t)
                    && geometry::reach(f as int, r as int, geometry::fl(t), geometry::rk(t)) < dist
                    + 1) by {
                bits::mem_or(before, here, t);
                if geometry::on_ray(s as int, df as int, dr as int, t) && geometry::reach(
                    f as int,
                    r as int,
                    geometry::fl(t),
                    geometry::rk(t),
                ) == dist {
                    geometry::lemma_reach_unique(s as int, df as int, dr as int, t, sq as int);
                }
            }
        }
        if bits::contains(occupied, sq) {
            open = false;
        }
        nf = nf + df;
        nr = nr + dr;
    }
    proof {
        let lim = geometry::reach(f as int, r as int, nf as int, nr as int);
        assert forall|t: int| #[trigger]
            bits::mem(bb, t) == (geometry::on_ray(s as int, df as int, dr as int, t)
                && geometry::clear(s as int, t, occupied)) by {
            if geometry::on_ray(s as int, df as int, dr as int, t) {
                let d = geometry::reach(f as int, r as int, geometry::fl(t), geometry::rk(t));
                if d < lim {
                    assert forall|x: int| #[trigger]
                        geometry::between(s as int, x, t) implies !bits::mem(occupied, x) by {
                        geometry::lemma_between_ray(s as int, df as int, dr as int, t, x);
                    }
                } else if !open {
                    let b = choose|b: int|
                        geometry::on_ray(s as int, df as int, dr as int, b) && #[trigger] bits::mem(
                            occupied,
                            b,
                        ) && geometry::reach(f as int, r as int, geometry::fl(b), geometry::rk(b))
                            + 1 == lim;
                    geometry::lemma_between_ray(s as int, df as int, dr as int, t, b);
                    assert(geometry::between(s as int, b, t));
                } else {
                    assert(false);
                }
            }
        }
    }
    bb
}

/// `t` is a square that a slider of type `pt` on `s` attacks.
pub open spec fn slides(pt: int, s: int, t: int, occupied: u64) -> bool {
    (if pt == BISHOP {
        geometry::diagonal(s, t)
    } else {
        geometry::straight(s, t)
    }) && geometry::clear(s, t, occupied)
}

/// The attacks of a sliding piece, up to and with the first blocker on each
/// line: a bishop's for `BISHOP`, a rook's for every other type.
pub fn sliding_attacks(pt: u8, s: usize, occupied: Bitboard) -> (r: Bitboard)
    requires
        s < 64,
    ensures
        forall|t: int| #[trigger] bits::mem(r, t) == slides(pt as int, s as int, t, occupied),
{
    broadcast use bits::group_mem;

    proof {
        assert forall|t: int|
            #![trigger geometry::clear(s as int, t, occupied)]
            true implies (geometry::straight(s as int, t) <==> (geometry::on_ray(s as int, 1, 0, t)
            || geometry::on_ray(s as int, -1, 0, t) || geometry::on_ray(s as int, 0, 1, t)
            || geometry::on_ray(s as int, 0, -1, t))) && (geometry::diagonal(s as int, t) <==> (
        geometry::on_ray(s as int, 1, 1, t) || geometry::on_ray(s as int, 1, -1, t)
            || geometry::on_ray(s as int, -1, 1, t) || geometry::on_ray(s as int, -1, -1, t))) by {
            geometry::lemma_rays(s as int, t);
        }
    }
    if pt == BISHOP {
        ray_attacks(s, 1, 1, occupied) | ray_attacks(s, 1, -1, occupied) | ray_attacks(
            s,
            -1,
            1,
            occupied,
        ) | ray_attacks(s, -1, -1, occupied)
    } else {
        ray_attacks(s, 1, 0, occupied) | ray_attacks(s, -1, 0, occupied) | ray_attacks(
            s,
            0,
            1,
            occupied,
        ) | ray_attacks(s, 0, -1, occupied)
    }
}

/// `t` is a square that a piece of type `pt` on `s` attacks; no square for
/// pawns and for what is no type.
pub open spec fn attacks(pt: int, s: int, t: int, occupied: u64) -> bool {
    if pt == BISHOP || pt == ROOK {
        slides(pt, s, t, occupied)
    } else if pt == QUEEN {
        slides(BISHOP as int, s, t, occupied) || slides(ROOK as int, s, t, occupied)
    } else if pt == KNIGHT {
        geometry::knight_step(s, t)
    } else if pt == KING {
        geometry::king_step(s, t)
    } else {
        false
    }
}

fn king_attacks(s: usize) -> (r: Bitboard)
    requires
        s < 64,
    ensures
        forall|t: int| #[trigger] bits::mem(r, t) == geometry::king_step(s as int, t),
{
    broadcast use bits::group_mem;

    step_bb(s, 1, 0) | step_bb(s, 1, 1) | step_bb(s, 0, 1) | step_bb(s, -1, 1) | step_bb(s, -1, 0)
        | step_bb(s, -1, -1) | step_bb(s, 0, -1) | step_bb(s, 1, -1)
}

/// The attacks of a knight.
pub fn knight_attacks(s: usize) -> (r: Bitboard)
    requires
        s < 64,
    ensures
        forall|t: int| #[trigger] bits::mem(r, t) == geometry::knight_step(s as int, t),
{
    broadcast use bits::group_mem;

    step_bb(s, 1, 2) | step_bb(s, 2, 1) | step_bb(s, 2, -1) | step_bb(s, 1, -2) | step_bb(s, -1, -2)
        | step_bb(s, -2, -1) | step_bb(s, -2, 1) | step_bb(s, -1, 2)
}

/// The attacks of any piece that is no pawn, past the blockers in `occupied`.
pub fn attacks_bb(pt: u8, s: usize, occupied: Bitboard) -> (r: Bitboard)
    requires
        s < 64,
    ensures
        forall|t: int| #[trigger] bits::mem(r, t) == attacks(pt as int, s as int, t, occupied),
{
    broadcast use bits::group_mem;

    if pt == BISHOP || pt == ROOK {
        sliding_attacks(pt, s, occupied)
    } else if pt == QUEEN {
        sliding_attacks(BISHOP, s, occupied) | sliding_attacks(ROOK, s, occupied)
    } else if pt == KNIGHT {
        knight_attacks(s)
    } else if pt == KING {
        king_attacks(s)
    } else {
        0
    }
}

/// The squares that a pawn on `s` captures on.
pub fn pawn_attacks(color: Color, s: usize) -> (r: Bitboard)
    requires
        s < 64,
    ensures
        forall|t: int| #[trigger]
            bits::mem(r, t) == geometry::pawn_step(color.index(), s as int, t),
{
    broadcast use bits::group_mem;

    let up: i32 = match color {
        Color::White => 1,
        Color::Black => -1,
    };
    step_bb(s, -1, up) | step_bb(s, 1, up)
}

/// The attacks of a piece that is no pawn on an empty board.
pub fn pseudo_attacks(pt: u8, s: usize) -> (r: Bitboard)
    requires
        s < 64,
    ensures
        forall|t: int| #[trigger] bits::mem(r, t) == attacks(pt as int, s as int, t, 0),
{
    attacks_bb(pt, s, 0)
}

/// The bishop's and the rook's attacks from one square.
pub fn both_attacks_bb(s: usize, occupied: Bitboard) -> (r: (Bitboard, Bitboard))
    requires
        s < 64,
    ensures
        forall|t: int| #[trigger]
            bits::mem(r.0, t) == slides(BISHOP as int, s as int, t, occupied),
        forall|t: int| #[trigger] bits::mem(r.1, t) == slides(ROOK as int, s as int, t, occupied),
{
    (sliding_attacks(BISHOP, s, occupied), sliding_attacks(ROOK, s, occupied))
}

/// `t` lies on the line from `s1` through `s2`, `s1` itself left out.
pub open spec fn on_line_through(s1: int, s2: int, t: int) -> bool {
    geometry::between(s1, t, s2) || geometry::between(s1, s2, t) || (t == s2 && (geometry::straight(
        s1,
        s2,
    ) || geometry::diagonal(s1, s2)))
}

/// The line that a slider on `s1` runs along through `s2` to the edge of the
/// board; empty where the two squares are not aligned.
pub fn ray_pass_bb(s1: usize, s2: usize) -> (r: Bitboard)
    requires
        s1 < 64,
        s2 < 64,
    ensures
        forall|t: int| #[trigger] bits::mem(r, t) == on_line_through(s1 as int, s2 as int, t),
{
    broadcast use bits::group_mem;

    let from: Bitboard = square_bb(s1);
    let target: Bitboard = square_bb(s2);
    let diag: Bitboard = sliding_attacks(BISHOP, s1, 0);
    let line: Bitboard = sliding_attacks(ROOK, s1, 0);
    proof {
        assert forall|t: int| #[trigger] geometry::clear(s2 as int, t, from) == !geometry::between(
            s2 as int,
            s1 as int,
            t,
        ) by {
            if geometry::clear(s2 as int, t, from) && geometry::between(s2 as int, s1 as int, t) {
                assert(bits::mem(from, s1 as int));
            }
        }
        assert(forall|a: int, b: int| #[trigger] geometry::clear(a, b, 0));
        geometry::lemma_straight_not_diagonal(s1 as int, s2 as int);
    }
    if bits::contains(line, s2) {
        line & (sliding_attacks(ROOK, s2, from) | target)
    } else if bits::contains(diag, s2) {
        diag & (sliding_attacks(BISHOP, s2, from) | target)
    } else {
        0
    }
}

/// `t` can hold a pawn that pairs with a pawn on `s`: its own file or a
/// neighbouring one, ranks 2 to 7, not `s` itself.
pub open spec fn pairs(s: int, t: int) -> bool {
    geometry::on_board(t) && 1 <= geometry::rk(t) <= 6 && -1 <= geometry::fl(t) - geometry::fl(s)
        <= 1 && t != s
}

/// The squares of a file.
pub fn file_bb(f: usize) -> (r: Bitboard)
    requires
        f < 8,
    ensures
        forall|t: int| #[trigger]
            bits::mem(r, t) == (geometry::on_board(t) && geometry::fl(t) == f),
{
    proof {
        assert forall|t: int| #[trigger]
            bits::mem(FILE_A << (f as u64), t) == (geometry::on_board(t) && geometry::fl(t) == f) by {
            lemma_file_mask(f as u64, t);
        }
    }
    FILE_A << (f as u64)
}

/// The squares that can hold the partner of a pawn on `s`.
pub fn pawn_pair_bb(s: usize) -> (r: Bitboard)
    requires
        s < 64,
    ensures
        forall|t: int| #[trigger] bits::mem(r, t) == pairs(s as int, t),
{
    broadcast use bits::group_mem;

    proof {
        assert forall|t: int| #[trigger] bits::mem(RANK_1, t) == (geometry::on_board(t)
            && geometry::rk(t) == 0) by {
            lemma_edge_masks(t);
        }
        assert forall|t: int| #[trigger] bits::mem(RANK_8, t) == (geometry::on_board(t)
            && geometry::rk(t) == 7) by {
            lemma_edge_masks(t);
        }
    }
    let f: usize = file_of(s);
    let mut files: Bitboard = file_bb(f);
    if f < 7 {
        files = files | file_bb(f + 1);
    }
    if f > 0 {
        files = files | file_bb(f - 1);
    }
    files & !(RANK_1 | RANK_8) & !square_bb(s)
}

/// Every square moved one file up and one rank up.
pub fn shift_north_east(bb: Bitboard) -> (r: Bitboard)
    ensures
        forall|t: int| #[trigger]
            bits::mem(r, t) == (geometry::on_board(t) && geometry::fl(t) > 0 && bits::mem(bb, t - 9)),
{
    proof {
        lemma_shifts(bb);
    }
    (bb & !FILE_H) << 9
}

/// Every square moved one file down and one rank up.
pub fn shift_north_west(bb: Bitboard) -> (r: Bitboard)
    ensures
        forall|t: int| #[trigger]
            bits::mem(r, t) == (geometry::on_board(t) && geometry::fl(t) < 7 && bits::mem(bb, t - 7)),
{
    proof {
        lemma_shifts(bb);
    }
    (bb & !FILE_A) << 7
}

/// Every square moved one file up and one rank down.
pub fn shift_south_east(bb: Bitboard) -> (r: Bitboard)
    ensures
        forall|t: int| #[trigger]
            bits::mem(r, t) == (geometry::on_board(t) && geometry::fl(t) > 0 && bits::mem(bb, t + 7)),
{
    proof {
        lemma_shifts(bb);
    }
    (bb & !FILE_H) >> 7
}

/// Every square moved one file down and one rank down.
pub fn shift_south_west(bb: Bitboard) -> (r: Bitboard)
    ensures
        forall|t: int| #[trigger]
            bits::mem(r, t) == (geometry::on_board(t) && geometry::fl(t) < 7 && bits::mem(bb, t + 9)),
{
    proof {
        lemma_shifts(bb);
    }
    (bb & !FILE_A) >> 9
}

proof fn lemma_shifts(bb: u64)
    ensures
        forall|t: int| #[trigger]
            bits::mem((bb & !FILE_H) << 9, t) == (geometry::on_board(t) && geometry::fl(t) > 0
                && bits::mem(bb, t - 9)),
        forall|t: int| #[trigger]
            bits::mem((bb & !FILE_A) << 7, t) == (geometry::on_board(t) && geometry::fl(t) < 7
                && bits::mem(bb, t - 7)),
        forall|t: int| #[trigger]
            bits::mem((bb & !FILE_H) >> 7, t) == (geometry::on_board(t) && geometry::fl(t) > 0
                && bits::mem(bb, t + 7)),
        forall|t: int| #[trigger]
            bits::mem((bb & !FILE_A) >> 9, t) == (geometry::on_board(t) && geometry::fl(t) < 7
                && bits::mem(bb, t + 9)),
{
    broadcast use bits::group_mem;

    assert forall|t: int| #[trigger]
        bits::mem((bb & !FILE_H) << 9, t) == (geometry::on_board(t) && geometry::fl(t) > 0
            && bits::mem(bb, t - 9)) by {
        bits::mem_shl(bb & !FILE_H, 9, t);
        lemma_edge_masks(t - 9);
    }
    assert forall|t: int| #[trigger]
        bits::mem((bb & !FILE_A) << 7, t) == (geometry::on_board(t) && geometry::fl(t) < 7
            && bits::mem(bb, t - 7)) by {
        bits::mem_shl(bb & !FILE_A, 7, t);
        lemma_edge_masks(t - 7);
    }
    assert forall|t: int| #[trigger]
        bits::mem((bb & !FILE_H) >> 7, t) == (geometry::on_board(t) && geometry::fl(t) > 0
            && bits::mem(bb, t + 7)) by {
        bits::mem_shr(bb & !FILE_H, 7, t);
        lemma_edge_masks(t + 7);
    }
    assert forall|t: int| #[trigger]
        bits::mem((bb & !FILE_A) >> 9, t) == (geometry::on_board(t) && geometry::fl(t) < 7
            && bits::mem(bb, t + 9)) by {
        bits::mem_shr(bb & !FILE_A, 9, t);
        lemma_edge_masks(t + 9);
    }
}

} // verus!
