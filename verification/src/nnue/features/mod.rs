//! The three feature sets and how they orient the board.
//!
//! Each set numbers its features as one side sees the board: the board is
//! turned over for Black and mirrored so that the side's king stands on one
//! half of it.
use vstd::prelude::*;


pub mod full_threats;
pub mod half_ka_v2_hm;
pub mod pp_3wide;
pub mod reach;
pub mod tiling;

verus! {

/// The square `s` on the board mirrored and turned over as told.
pub open spec fn oriented(s: int, mirror: bool, turn: bool) -> int {
    8 * (if turn {
        7 - s / 8
    } else {
        s / 8
    }) + (if mirror {
        7 - s % 8
    } else {
        s % 8
    })
}

/// Orienting keeps squares apart and can be undone by doing it again.
pub proof fn lemma_oriented(s: int, mirror: bool, turn: bool)
    requires
        0 <= s < 64,
    ensures
        0 <= oriented(s, mirror, turn) < 64,
        oriented(oriented(s, mirror, turn), mirror, turn) == s,
        8 <= s <= 55 ==> 8 <= oriented(s, mirror, turn) <= 55,
{
}

/// The square `s` on the board mirrored and turned over as told.
pub fn orient(s: usize, mirror: bool, turn: bool) -> (r: usize)
    requires
        s < 64,
    ensures
        r == oriented(s as int, mirror, turn),
        r < 64,
{
    let a: usize = if mirror {
        s ^ 7
    } else {
        s
    };
    proof {
        assert((s < 64 ==> s ^ 7 == 8 * (s / 8) + (7 - s % 8)) && (a < 64 ==> a ^ 56 == 8 * (7 - a
            / 8) + a % 8)) by (bit_vector);
    }
    if turn {
        a ^ 56
    } else {
        a
    }
}

/// The piece `pc` with the other colour.
pub open spec fn recolored(pc: int) -> int {
    if pc < 8 {
        pc + 8
    } else {
        pc - 8
    }
}

/// The piece `pc`, with the other colour where `swap` says so.
pub fn recolor(pc: u8, swap: bool) -> (r: u8)
    requires
        pc < 16,
    ensures
        r == (if swap {
            recolored(pc as int)
        } else {
            pc as int
        }),
        r < 16,
{
    assert(pc < 16 ==> pc ^ 8 == (if pc < 8 {
        pc + 8
    } else {
        pc - 8
    })) by (bit_vector);
    if swap {
        pc ^ 8
    } else {
        pc
    }
}

} // verus!
