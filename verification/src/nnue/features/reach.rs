//! How many squares a piece attacks on an empty board.
use vstd::prelude::*;
use crate::nnue::attacks;
use crate::nnue::geometry;
use crate::nnue::types::{BISHOP, KING, KNIGHT, PAWN, QUEEN, ROOK};

verus! {

/// The piece `pc` on `from` attacks `t` on an empty board.
pub open spec fn pseudo(pc: int, from: int, t: int) -> bool {
    if pc % 8 == PAWN {
        geometry::pawn_step(pc / 8, from, t)
    } else {
        attacks::attacks(pc % 8, from, t, 0)
    }
}

/// The squares that the piece `pc` on `from` attacks on an empty board.
pub open spec fn aim(pc: int, from: int) -> Set<int> {
    Set::new(|t: int| pseudo(pc, from, t))
}

/// The attacked squares below `to`.
pub open spec fn aim_below(pc: int, from: int, to: int) -> Set<int> {
    Set::new(|t: int| t < to && pseudo(pc, from, t))
}

/// The square on file `f` and rank `r`, or nothing off the board.
spec fn cell(f: int, r: int) -> Set<int> {
    Set::new(|t: int| geometry::on_board(t) && geometry::fl(t) == f && geometry::rk(t) == r)
}

/// 1 for a point of the board, 0 for one off it.
pub open spec fn inside(f: int, r: int) -> nat {
    if 0 <= f < 8 && 0 <= r < 8 {
        1
    } else {
        0
    }
}

/// The number of squares from (`f`, `r`) to the edge in a direction.
pub open spec fn ray_len(f: int, r: int, df: int, dr: int) -> nat {
    let x = if df == 1 {
        7 - f
    } else if df == -1 {
        f
    } else {
        7
    };
    let y = if dr == 1 {
        7 - r
    } else if dr == -1 {
        r
    } else {
        7
    };
    (if x < y {
        x
    } else {
        y
    }) as nat
}

/// The number of squares that the piece `pc` attacks from (`f`, `r`).
pub open spec fn reach_count(pc: int, f: int, r: int) -> nat {
    let pt = pc % 8;
    if pt == PAWN {
        let up = if pc / 8 == 0 {
            1int
        } else {
            -1
        };
        inside(f - 1, r + up) + inside(f + 1, r + up)
    } else if pt == KNIGHT {
        inside(f + 1, r + 2) + inside(f + 2, r + 1) + inside(f + 2, r - 1) + inside(f + 1, r - 2)
            + inside(f - 1, r - 2) + inside(f - 2, r - 1) + inside(f - 2, r + 1) + inside(
            f - 1,
            r + 2,
        )
    } else if pt == BISHOP {
        ray_len(f, r, 1, 1) + ray_len(f, r, 1, -1) + ray_len(f, r, -1, 1) + ray_len(f, r, -1, -1)
    } else if pt == ROOK {
        14
    } else if pt == QUEEN {
        14 + ray_len(f, r, 1, 1) + ray_len(f, r, 1, -1) + ray_len(f, r, -1, 1) + ray_len(
            f,
            r,
            -1,
            -1,
        )
    } else if pt == KING {
        inside(f + 1, r) + inside(f + 1, r + 1) + inside(f, r + 1) + inside(f - 1, r + 1) + inside(
            f - 1,
            r,
        ) + inside(f - 1, r - 1) + inside(f, r - 1) + inside(f + 1, r - 1)
    } else {
        0
    }
}

proof fn lemma_cell(acc: Set<int>, f: int, r: int)
    requires
        acc.finite(),
        forall|t: int| cell(f, r).contains(t) ==> !acc.contains(t),
    ensures
        (acc + cell(f, r)).finite(),
        (acc + cell(f, r)).len() == acc.len() + inside(f, r),
{
    if inside(f, r) == 1 {
        assert(acc + cell(f, r) =~= acc.insert(8 * r + f));
        assert(cell(f, r).contains(8 * r + f));
    } else {
        assert(acc + cell(f, r) =~= acc);
    }
}

spec fn ray_set(a: int, df: int, dr: int) -> Set<int> {
    Set::new(|t: int| geometry::on_ray(a, df, dr, t))
}

proof fn lemma_ray_set(a: int, df: int, dr: int)
    requires
        geometry::on_board(a),
        geometry::direction(df, dr),
    ensures
        ray_set(a, df, dr).finite(),
        ray_set(a, df, dr).len() == ray_len(a % 8, a / 8, df, dr),
{
    let f = a % 8;
    let r = a / 8;
    let n = ray_len(f, r, df, dr) as int;
    let rays = ray_set(a, df, dr);
    let dist = |t: int| geometry::reach(f, r, geometry::fl(t), geometry::rk(t));
    let range = vstd::set_lib::set_int_range(1, n + 1);
    vstd::set_lib::lemma_int_range(1, n + 1);
    let all = vstd::set_lib::set_int_range(0, 64);
    vstd::set_lib::lemma_int_range(0, 64);
    vstd::set_lib::lemma_len_subset(rays, all);
    assert forall|x: int, y: int|
        rays.contains(x) && rays.contains(y) && #[trigger] dist(x) == #[trigger] dist(y) implies x
        == y by {
        geometry::lemma_reach_unique(a, df, dr, x, y);
    }
    assert(rays.map(dist) =~= range) by {
        assert forall|k: int| range.contains(k) implies #[trigger] rays.map(dist).contains(k) by {
            let x = if df == 1 {
                f + k
            } else if df == -1 {
                f - k
            } else {
                f
            };
            let y = if dr == 1 {
                r + k
            } else if dr == -1 {
                r - k
            } else {
                r
            };
            let t = 8 * y + x;
            assert(geometry::fl(t) == x && geometry::rk(t) == y);
            assert(rays.contains(t));
            assert(dist(t) == k);
        }
        assert forall|k: int| #[trigger] rays.map(dist).contains(k) implies range.contains(k) by {
            let t = choose|t: int| rays.contains(t) && dist(t) == k;
        }
    }
    vstd::set_lib::lemma_map_size(rays, range, dist);
}

proof fn lemma_diagonal_count(a: int)
    requires
        geometry::on_board(a),
    ensures
        Set::new(|t: int| geometry::diagonal(a, t)).finite(),
        Set::new(|t: int| geometry::diagonal(a, t)).len() == ray_len(a % 8, a / 8, 1, 1) + ray_len(
            a % 8,
            a / 8,
            1,
            -1,
        ) + ray_len(a % 8, a / 8, -1, 1) + ray_len(a % 8, a / 8, -1, -1),
{
    let d = Set::new(|t: int| geometry::diagonal(a, t));
    let r1 = ray_set(a, 1, 1);
    let r2 = ray_set(a, 1, -1);
    let r3 = ray_set(a, -1, 1);
    let r4 = ray_set(a, -1, -1);
    lemma_ray_set(a, 1, 1);
    lemma_ray_set(a, 1, -1);
    lemma_ray_set(a, -1, 1);
    lemma_ray_set(a, -1, -1);
    vstd::set_lib::lemma_set_disjoint_lens(r1, r2);
    vstd::set_lib::lemma_set_disjoint_lens(r1 + r2, r3);
    vstd::set_lib::lemma_set_disjoint_lens(r1 + r2 + r3, r4);
    assert forall|t: int| d.contains(t) == (r1 + r2 + r3 + r4).contains(t) by {
        geometry::lemma_rays(a, t);
    }
    assert(d =~= r1 + r2 + r3 + r4);
}

proof fn lemma_straight_count(a: int)
    requires
        geometry::on_board(a),
    ensures
        Set::new(|t: int| geometry::straight(a, t)).finite(),
        Set::new(|t: int| geometry::straight(a, t)).len() == 14,
{
    let d = Set::new(|t: int| geometry::straight(a, t));
    let r1 = ray_set(a, 1, 0);
    let r2 = ray_set(a, -1, 0);
    let r3 = ray_set(a, 0, 1);
    let r4 = ray_set(a, 0, -1);
    lemma_ray_set(a, 1, 0);
    lemma_ray_set(a, -1, 0);
    lemma_ray_set(a, 0, 1);
    lemma_ray_set(a, 0, -1);
    vstd::set_lib::lemma_set_disjoint_lens(r1, r2);
    vstd::set_lib::lemma_set_disjoint_lens(r1 + r2, r3);
    vstd::set_lib::lemma_set_disjoint_lens(r1 + r2 + r3, r4);
    assert forall|t: int| d.contains(t) == (r1 + r2 + r3 + r4).contains(t) by {
        geometry::lemma_rays(a, t);
    }
    assert(d =~= r1 + r2 + r3 + r4);
}

proof fn lemma_knight_count(a: int)
    requires
        geometry::on_board(a),
    ensures
        Set::new(|t: int| geometry::knight_step(a, t)).finite(),
        Set::new(|t: int| geometry::knight_step(a, t)).len() == reach_count(
            KNIGHT as int,
            a % 8,
            a / 8,
        ),
{
    let f = a % 8;
    let r = a / 8;
    let d = Set::new(|t: int| geometry::knight_step(a, t));
    let a1 = Set::<int>::empty() + cell(f + 1, r + 2);
    let a2 = a1 + cell(f + 2, r + 1);
    let a3 = a2 + cell(f + 2, r - 1);
    let a4 = a3 + cell(f + 1, r - 2);
    let a5 = a4 + cell(f - 1, r - 2);
    let a6 = a5 + cell(f - 2, r - 1);
    let a7 = a6 + cell(f - 2, r + 1);
    let a8 = a7 + cell(f - 1, r + 2);
    lemma_cell(Set::empty(), f + 1, r + 2);
    lemma_cell(a1, f + 2, r + 1);
    lemma_cell(a2, f + 2, r - 1);
    lemma_cell(a3, f + 1, r - 2);
    lemma_cell(a4, f - 1, r - 2);
    lemma_cell(a5, f - 2, r - 1);
    lemma_cell(a6, f - 2, r + 1);
    lemma_cell(a7, f - 1, r + 2);
    assert(d =~= a8);
}

proof fn lemma_king_count(a: int)
    requires
        geometry::on_board(a),
    ensures
        Set::new(|t: int| geometry::king_step(a, t)).finite(),
        Set::new(|t: int| geometry::king_step(a, t)).len() == reach_count(
            KING as int,
            a % 8,
            a / 8,
        ),
{
    let f = a % 8;
    let r = a / 8;
    let d = Set::new(|t: int| geometry::king_step(a, t));
    let a1 = Set::<int>::empty() + cell(f + 1, r);
    let a2 = a1 + cell(f + 1, r + 1);
    let a3 = a2 + cell(f, r + 1);
    let a4 = a3 + cell(f - 1, r + 1);
    let a5 = a4 + cell(f - 1, r);
    let a6 = a5 + cell(f - 1, r - 1);
    let a7 = a6 + cell(f, r - 1);
    let a8 = a7 + cell(f + 1, r - 1);
    lemma_cell(Set::empty(), f + 1, r);
    lemma_cell(a1, f + 1, r + 1);
    lemma_cell(a2, f, r + 1);
    lemma_cell(a3, f - 1, r + 1);
    lemma_cell(a4, f - 1, r);
    lemma_cell(a5, f - 1, r - 1);
    lemma_cell(a6, f, r - 1);
    lemma_cell(a7, f + 1, r - 1);
    assert(d =~= a8);
}

proof fn lemma_pawn_count(c: int, a: int)
    requires
        geometry::on_board(a),
        0 <= c < 2,
    ensures
        Set::new(|t: int| geometry::pawn_step(c, a, t)).finite(),
        Set::new(|t: int| geometry::pawn_step(c, a, t)).len() == reach_count(
            8 * c + PAWN,
            a % 8,
            a / 8,
        ),
{
    let f = a % 8;
    let up = if c == 0 {
        1int
    } else {
        -1
    };
    let r = a / 8 + up;
    let d = Set::new(|t: int| geometry::pawn_step(c, a, t));
    let a1 = Set::<int>::empty() + cell(f - 1, r);
    let a2 = a1 + cell(f + 1, r);
    lemma_cell(Set::empty(), f - 1, r);
    lemma_cell(a1, f + 1, r);
    assert(d =~= a2);
}

/// The number of squares that a piece attacks on an empty board, in closed
/// form.
pub proof fn lemma_aim_count(pc: int, a: int)
    requires
        geometry::on_board(a),
        0 <= pc < 16,
    ensures
        aim(pc, a).finite(),
        aim(pc, a).len() == reach_count(pc, a % 8, a / 8),
        aim(pc, a).len() <= 28,
{
    let pt = pc % 8;
    assert forall|b: int| #[trigger] geometry::clear(a, b, 0) by {
        assert forall|x: int| #[trigger] geometry::between(a, x, b) implies !crate::bits::mem(
            0,
            x,
        ) by {
            crate::bits::mem_zero(x);
        }
    }
    if pt == PAWN {
        lemma_pawn_count(pc / 8, a);
        assert(aim(pc, a) =~= Set::new(|t: int| geometry::pawn_step(pc / 8, a, t)));
    } else if pt == KNIGHT {
        lemma_knight_count(a);
        assert(aim(pc, a) =~= Set::new(|t: int| geometry::knight_step(a, t)));
    } else if pt == BISHOP {
        lemma_diagonal_count(a);
        assert(aim(pc, a) =~= Set::new(|t: int| geometry::diagonal(a, t)));
    } else if pt == ROOK {
        lemma_straight_count(a);
        assert(aim(pc, a) =~= Set::new(|t: int| geometry::straight(a, t)));
    } else if pt == QUEEN {
        lemma_diagonal_count(a);
        lemma_straight_count(a);
        let x = Set::new(|t: int| geometry::diagonal(a, t));
        let y = Set::new(|t: int| geometry::straight(a, t));
        assert(x.disjoint(y));
        vstd::set_lib::lemma_set_disjoint_lens(x, y);
        assert(aim(pc, a) =~= x + y);
    } else if pt == KING {
        lemma_king_count(a);
        assert(aim(pc, a) =~= Set::new(|t: int| geometry::king_step(a, t)));
    } else {
        assert(aim(pc, a) =~= Set::empty());
    }
}

fn inside_u(f: i32, r: i32) -> (n: u32)
    ensures
        n == inside(f as int, r as int),
        n <= 1,
{
    if 0 <= f && f < 8 && 0 <= r && r < 8 {
        1
    } else {
        0
    }
}

fn least(x: u32, y: u32) -> (n: u32)
    ensures
        n == (if x < y {
            x
        } else {
            y
        }),
{
    if x < y {
        x
    } else {
        y
    }
}

/// The number of squares that the piece `pc` on `s` attacks on an empty board.
pub fn aim_count(pc: u8, s: usize) -> (n: u32)
    requires
        pc < 16,
        s < 64,
    ensures
        n == aim(pc as int, s as int).len(),
        n <= 28,
{
    proof {
        lemma_aim_count(pc as int, s as int);
    }
    let pt: u8 = pc % 8;
    let f: i32 = (s % 8) as i32;
    let r: i32 = (s / 8) as i32;
    let x: u32 = (s % 8) as u32;
    let y: u32 = (s / 8) as u32;
    if pt == PAWN {
        let up: i32 = if pc < 8 {
            1
        } else {
            -1
        };
        inside_u(f - 1, r + up) + inside_u(f + 1, r + up)
    } else if pt == KNIGHT {
        inside_u(f + 1, r + 2) + inside_u(f + 2, r + 1) + inside_u(f + 2, r - 1) + inside_u(
            f + 1,
            r - 2,
        ) + inside_u(f - 1, r - 2) + inside_u(f - 2, r - 1) + inside_u(f - 2, r + 1) + inside_u(
            f - 1,
            r + 2,
        )
    } else if pt == BISHOP || pt == QUEEN {
        let diag: u32 = least(7 - x, 7 - y) + least(7 - x, y) + least(x, 7 - y) + least(x, y);
        if pt == QUEEN {
            14 + diag
        } else {
            diag
        }
    } else if pt == ROOK {
        14
    } else if pt == KING {
        inside_u(f + 1, r) + inside_u(f + 1, r + 1) + inside_u(f, r + 1) + inside_u(f - 1, r + 1)
            + inside_u(f - 1, r) + inside_u(f - 1, r - 1) + inside_u(f, r - 1) + inside_u(
            f + 1,
            r - 1,
        )
    } else {
        0
    }
}

} // verus!
