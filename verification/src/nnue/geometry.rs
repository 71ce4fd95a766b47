//! Lines on the board: which squares are aligned, which lie between two
//! others, and which a sliding piece reaches past the pieces in its way.
use vstd::prelude::*;
use crate::bits;

verus! {

/// `s` is a square of the board.
pub open spec fn on_board(s: int) -> bool {
    0 <= s < 64
}

/// File of a square, 0 for the a-file.
pub open spec fn fl(s: int) -> int {
    s % 8
}

/// Rank of a square, 0 for the first rank.
pub open spec fn rk(s: int) -> int {
    s / 8
}

/// Two different squares on one rank or one file.
pub open spec fn straight(a: int, b: int) -> bool {
    on_board(a) && on_board(b) && a != b && (fl(a) == fl(b) || rk(a) == rk(b))
}

/// Two different squares on one diagonal.
pub open spec fn diagonal(a: int, b: int) -> bool {
    on_board(a) && on_board(b) && a != b && (fl(a) - fl(b) == rk(a) - rk(b) || fl(a) - fl(b) == rk(
        b,
    ) - rk(a))
}

/// `x` lies strictly between `a` and `b` on a rank, a file or a diagonal.
pub open spec fn between(a: int, x: int, b: int) -> bool {
    &&& on_board(a) && on_board(x) && on_board(b)
    &&& {
        ||| fl(a) == fl(x) && fl(x) == fl(b) && (rk(a) < rk(x) < rk(b) || rk(b) < rk(x) < rk(a))
        ||| rk(a) == rk(x) && rk(x) == rk(b) && (fl(a) < fl(x) < fl(b) || fl(b) < fl(x) < fl(a))
        ||| fl(x) - fl(a) == rk(x) - rk(a) && fl(b) - fl(a) == rk(b) - rk(a) && (fl(a) < fl(x) < fl(
            b,
        ) || fl(b) < fl(x) < fl(a))
        ||| fl(x) - fl(a) == rk(a) - rk(x) && fl(b) - fl(a) == rk(a) - rk(b) && (fl(a) < fl(x) < fl(
            b,
        ) || fl(b) < fl(x) < fl(a))
    }
}

/// No square of `occ` lies strictly between `a` and `b`.
pub open spec fn clear(a: int, b: int, occ: u64) -> bool {
    forall|x: int| #[trigger] between(a, x, b) ==> !bits::mem(occ, x)
}

/// `b` is a knight's move away from `a`.
pub open spec fn knight_step(a: int, b: int) -> bool {
    &&& on_board(a) && on_board(b)
    &&& {
        ||| (fl(b) - fl(a) == 1 || fl(b) - fl(a) == -1) && (rk(b) - rk(a) == 2 || rk(b) - rk(a)
            == -2)
        ||| (fl(b) - fl(a) == 2 || fl(b) - fl(a) == -2) && (rk(b) - rk(a) == 1 || rk(b) - rk(a)
            == -1)
    }
}

/// `b` is a neighbour of `a`.
pub open spec fn king_step(a: int, b: int) -> bool {
    on_board(a) && on_board(b) && a != b && -1 <= fl(b) - fl(a) <= 1 && -1 <= rk(b) - rk(a) <= 1
}

/// A pawn of the colour with index `c` on `a` attacks `b`.
pub open spec fn pawn_step(c: int, a: int, b: int) -> bool {
    on_board(a) && on_board(b) && rk(b) - rk(a) == (if c == 0 {
        1int
    } else {
        -1
    }) && (fl(b) - fl(a) == 1 || fl(b) - fl(a) == -1)
}

/// `b` lies on the ray that leaves `a` in the direction (`df`, `dr`).
pub open spec fn on_ray(a: int, df: int, dr: int, b: int) -> bool {
    on_board(a) && on_board(b) && ray_at(fl(a), rk(a), df, dr, fl(b), rk(b))
}

/// The point (`nf`, `nr`), on the board or off it, lies on the ray that leaves
/// (`f`, `r`) in the direction (`df`, `dr`).
pub open spec fn ray_at(f: int, r: int, df: int, dr: int, nf: int, nr: int) -> bool {
    &&& df == 0 ==> nf == f
    &&& df == 1 ==> nf > f
    &&& df == -1 ==> nf < f
    &&& dr == 0 ==> nr == r
    &&& dr == 1 ==> nr > r
    &&& dr == -1 ==> nr < r
    &&& df != 0 && dr != 0 && df == dr ==> nf - f == nr - r
    &&& df != 0 && dr != 0 && df != dr ==> nf - f == r - nr
}

/// (`df`, `dr`) is one of the eight directions.
pub open spec fn direction(df: int, dr: int) -> bool {
    -1 <= df <= 1 && -1 <= dr <= 1 && !(df == 0 && dr == 0)
}

/// How far (`nf`, `nr`) is from (`f`, `r`) along a ray.
pub open spec fn reach(f: int, r: int, nf: int, nr: int) -> int {
    if nf > f {
        nf - f
    } else if nf < f {
        f - nf
    } else if nr > r {
        nr - r
    } else {
        r - nr
    }
}

/// On a ray, the squares strictly between the origin and `b` are those of the
/// ray that are nearer than `b`.
pub proof fn lemma_between_ray(a: int, df: int, dr: int, b: int, x: int)
    requires
        direction(df, dr),
        on_ray(a, df, dr, b),
    ensures
        between(a, x, b) <==> on_ray(a, df, dr, x) && reach(fl(a), rk(a), fl(x), rk(x)) < reach(
            fl(a),
            rk(a),
            fl(b),
            rk(b),
        ),
{
}

/// A ray has one square at each distance.
pub proof fn lemma_reach_unique(a: int, df: int, dr: int, x: int, y: int)
    requires
        direction(df, dr),
        on_ray(a, df, dr, x),
        on_ray(a, df, dr, y),
        reach(fl(a), rk(a), fl(x), rk(x)) == reach(fl(a), rk(a), fl(y), rk(y)),
    ensures
        x == y,
{
}

/// Aligned squares lie on exactly the ray of their direction.
pub proof fn lemma_rays(a: int, b: int)
    ensures
        straight(a, b) <==> (on_ray(a, 1, 0, b) || on_ray(a, -1, 0, b) || on_ray(a, 0, 1, b)
            || on_ray(a, 0, -1, b)),
        diagonal(a, b) <==> (on_ray(a, 1, 1, b) || on_ray(a, 1, -1, b) || on_ray(a, -1, 1, b)
            || on_ray(a, -1, -1, b)),
{
}

/// "Strictly between" does not depend on which end comes first.
pub broadcast proof fn lemma_between_sym(a: int, x: int, b: int)
    ensures
        #[trigger] between(a, x, b) == between(b, x, a),
{
}

/// A clear line is clear from either end.
pub proof fn lemma_clear_sym(a: int, b: int, occ: u64)
    ensures
        clear(a, b, occ) == clear(b, a, occ),
{
    assert forall|x: int| between(a, x, b) == #[trigger] between(b, x, a) by {
        lemma_between_sym(a, x, b);
    }
    assert forall|x: int| #[trigger] between(a, x, b) == between(b, x, a) by {
        lemma_between_sym(a, x, b);
    }
}

/// Where `s` lies between `a` and `b`, what lies between them lies on one side
/// of `s` or is `s`.
pub proof fn lemma_between_split(a: int, s: int, b: int, x: int)
    requires
        between(a, s, b),
    ensures
        between(a, x, b) <==> between(a, x, s) || x == s || between(s, x, b),
{
}

/// Of two squares beyond `s` as seen from `a`, one lies between `s` and the
/// other.
pub proof fn lemma_beyond(a: int, s: int, b: int, c: int)
    requires
        between(a, s, b),
        between(a, s, c),
        b != c,
    ensures
        between(s, b, c) || between(s, c, b),
{
}

/// A line keeps its kind along its length.
pub proof fn lemma_between_aligned(a: int, s: int, b: int)
    requires
        between(a, s, b),
    ensures
        straight(a, s) == straight(a, b),
        straight(s, b) == straight(a, b),
        diagonal(a, s) == diagonal(a, b),
        diagonal(s, b) == diagonal(a, b),
        straight(a, b) || diagonal(a, b),
        a != s,
        s != b,
        a != b,
{
}

/// No two squares are both on one line and on one diagonal.
pub proof fn lemma_straight_not_diagonal(a: int, b: int)
    ensures
        !(straight(a, b) && diagonal(a, b)),
{
}

} // verus!
