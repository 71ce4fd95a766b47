//! How many features a board has: the lists that hold them never overflow.
//!
//! Pieces attack at most eight others each, and pawns two. Pairs of pawns are
//! counted by files: no file has room for more than six of them.
use vstd::prelude::*;
use crate::bits;
use crate::board::Placement;
use crate::nnue::balance;
use crate::nnue::board;
use crate::nnue::capacity;
use crate::nnue::features::full_threats;
use crate::nnue::features::half_ka_v2_hm;
use crate::nnue::features::pp_3wide;
use crate::nnue::incremental;
use crate::nnue::types::Color;
use crate::nnue::types;

verus! {

// --- pawns by file -------------------------------------------------------------------------

/// The squares of a set on a file.
pub open spec fn within(bb: u64, f: int) -> spec_fn(int) -> bool {
    |s: int| bits::mem(bb, s) && s % 8 == f
}

/// How many squares of a set lie on a file.
pub open spec fn on_file(bb: u64, f: int) -> int {
    bits::ones(board::word_of(within(bb, f))) as int
}

/// How many squares of a set lie on each file.
spec fn by_file(bb: u64) -> spec_fn(int) -> int {
    |f: int| on_file(bb, f)
}

proof fn lemma_on_file(bb: u64, f: int)
    requires
        bb != 0,
    ensures
        on_file(bb, f) == on_file(bits::rest(bb), f) + (if bits::lsb(bb) % 8 == f {
            1int
        } else {
            0
        }),
{
    let a = board::word_of(within(bits::rest(bb), f));
    let b = board::word_of(within(bb, f));
    board::lemma_word_exists(within(bits::rest(bb), f));
    board::lemma_word_exists(within(bb, f));
    bits::lemma_lsb(bb);
    if bits::lsb(bb) % 8 == f {
        bits::lemma_ones_insert(a, b, bits::lsb(bb));
    } else {
        bits::lemma_ext(a, b);
    }
}

proof fn lemma_on_file_none(bb: u64, f: int)
    ensures
        bb == 0 || f < 0 || f > 7 ==> on_file(bb, f) == 0,
{
    let w = board::word_of(within(bb, f));
    board::lemma_word_exists(within(bb, f));
    if bb == 0 || f < 0 || f > 7 {
        assert forall|s: int| !bits::mem(w, s) by {
            bits::mem_zero(s);
        }
        bits::lemma_nonzero(w);
    }
}

/// The squares of a set are those on its files.
proof fn lemma_all_files(bb: u64)
    ensures
        bits::ones(bb) == on_file(bb, 0) + on_file(bb, 1) + on_file(bb, 2) + on_file(bb, 3)
            + on_file(bb, 4) + on_file(bb, 5) + on_file(bb, 6) + on_file(bb, 7),
    decreases bb,
{
    lemma_on_file_none(bb, 0);
    lemma_on_file_none(bb, 1);
    lemma_on_file_none(bb, 2);
    lemma_on_file_none(bb, 3);
    lemma_on_file_none(bb, 4);
    lemma_on_file_none(bb, 5);
    lemma_on_file_none(bb, 6);
    lemma_on_file_none(bb, 7);
    if bb != 0 {
        bits::lemma_lsb(bb);
        lemma_all_files(bits::rest(bb));
        lemma_on_file(bb, 0);
        lemma_on_file(bb, 1);
        lemma_on_file(bb, 2);
        lemma_on_file(bb, 3);
        lemma_on_file(bb, 4);
        lemma_on_file(bb, 5);
        lemma_on_file(bb, 6);
        lemma_on_file(bb, 7);
    }
}

/// A file has room for six pawns.
proof fn lemma_six(white: u64, black: u64, f: int)
    requires
        balance::pawn_words(white, black),
    ensures
        on_file(white, f) + on_file(black, f) <= 6,
{
    broadcast use bits::group_mem;

    let a = board::word_of(within(white, f));
    let b = board::word_of(within(black, f));
    board::lemma_word_exists(within(white, f));
    board::lemma_word_exists(within(black, f));
    assert forall|s: int| !(#[trigger] bits::mem(a, s) && bits::mem(b, s)) by {
        if bits::mem(a, s) && bits::mem(b, s) {
            assert(bits::mem(white, s) && bits::mem(black, s));
        }
    }
    bits::lemma_ones_disjoint(a, b);
    let rank = |s: int| s / 8 - 1;
    assert forall|s: int| #[trigger] bits::mem(a | b, s) implies 0 <= rank(s) < 6 by {
        assert(bits::mem(white, s) || bits::mem(black, s));
    }
    bits::lemma_ones_numbered(a | b, rank, 6);
}

/// How many of a set lie on a file or next to it.
spec fn near(v: spec_fn(int) -> int, g: int) -> int {
    v(g - 1) + v(g) + v(g + 1)
}

/// Squares of a set that lie on the file of `a` or next to it.
proof fn lemma_near(q: spec_fn(int) -> bool, bb: u64, a: int)
    requires
        forall|t: int|
            0 <= t < 64 && #[trigger] q(t) ==> bits::mem(bb, t) && -1 <= t % 8 - a % 8 <= 1,
    ensures
        bits::ones(board::word_of(q)) <= near(by_file(bb), a % 8),
{
    let g = a % 8;
    let x = within(bb, g - 1);
    let y = within(bb, g);
    let z = within(bb, g + 1);
    let xy = |t: int| x(t) || y(t);
    capacity::lemma_ones_either(x, y, xy);
    assert forall|t: int| 0 <= t < 64 && #[trigger] q(t) implies xy(t) || z(t) by {
        assert(bits::mem(bb, t));
    }
    capacity::lemma_ones_either(xy, z, q);
}

// --- pairs -----------------------------------------------------------------------------------

/// Twice the number of pairs of things that lie on one file or on neighbouring
/// files, where `v` tells how many lie on each.
spec fn twice_paired(v: spec_fn(int) -> int) -> int {
    v(0) * v(0) + v(1) * v(1) + v(2) * v(2) + v(3) * v(3) + v(4) * v(4) + v(5) * v(5) + v(6) * v(6)
        + v(7) * v(7) - (v(0) + v(1) + v(2) + v(3) + v(4) + v(5) + v(6) + v(7)) + 2 * (v(0) * v(1)
        + v(1) * v(2) + v(2) * v(3) + v(3) * v(4) + v(4) * v(5) + v(5) * v(6) + v(6) * v(7))
}

/// The number of pairs of one thing of `v` and one of `k`.
spec fn across(v: spec_fn(int) -> int, k: spec_fn(int) -> int) -> int {
    v(0) * near(k, 0) + v(1) * near(k, 1) + v(2) * near(k, 2) + v(3) * near(k, 3) + v(4) * near(
        k,
        4,
    ) + v(5) * near(k, 5) + v(6) * near(k, 6) + v(7) * near(k, 7)
}

proof fn lemma_one_more(y: int, z: int)
    ensures
        (y + 1) * z == y * z + z,
        z * (y + 1) == z * y + z,
        (y + 1) * (y + 1) == y * y + 2 * y + 1,
{
    assert((y + 1) * z == y * z + z) by (nonlinear_arith);
    assert(z * (y + 1) == z * y + z) by (nonlinear_arith);
    assert((y + 1) * (y + 1) == y * y + 2 * y + 1) by (nonlinear_arith);
}

/// One more on the file `g` makes pairs with all that lie near.
proof fn lemma_paired_step(x: spec_fn(int) -> int, y: spec_fn(int) -> int, g: int)
    requires
        0 <= g < 8,
        y(-1) == 0,
        y(8) == 0,
        forall|f: int|
            0 <= f < 8 ==> #[trigger] x(f) == y(f) + (if f == g {
                1int
            } else {
                0
            }),
    ensures
        twice_paired(x) == twice_paired(y) + 2 * near(y, g),
{
    lemma_one_more(y(g), y(g - 1));
    lemma_one_more(y(g), y(g + 1));
    assert(x(0) == y(0) || g == 0);
    assert(x(1) == y(1) || g == 1);
    assert(x(2) == y(2) || g == 2);
    assert(x(3) == y(3) || g == 3);
    assert(x(4) == y(4) || g == 4);
    assert(x(5) == y(5) || g == 5);
    assert(x(6) == y(6) || g == 6);
    assert(x(7) == y(7) || g == 7);
    assert(x(g) == y(g) + 1);
}

proof fn lemma_across_step(
    x: spec_fn(int) -> int,
    y: spec_fn(int) -> int,
    k: spec_fn(int) -> int,
    g: int,
)
    requires
        0 <= g < 8,
        forall|f: int|
            0 <= f < 8 ==> #[trigger] x(f) == y(f) + (if f == g {
                1int
            } else {
                0
            }),
    ensures
        across(x, k) == across(y, k) + near(k, g),
{
    lemma_one_more(y(g), near(k, g));
    assert(x(0) == y(0) || g == 0);
    assert(x(1) == y(1) || g == 1);
    assert(x(2) == y(2) || g == 2);
    assert(x(3) == y(3) || g == 3);
    assert(x(4) == y(4) || g == 4);
    assert(x(5) == y(5) || g == 5);
    assert(x(6) == y(6) || g == 6);
    assert(x(7) == y(7) || g == 7);
    assert(x(g) == y(g) + 1);
}

/// A set and the set without its lowest square, file by file.
proof fn lemma_files_step(bb: u64)
    requires
        bb != 0,
    ensures
        by_file(bits::rest(bb))(-1) == 0,
        by_file(bits::rest(bb))(8) == 0,
        forall|f: int|
            0 <= f < 8 ==> #[trigger] by_file(bb)(f) == by_file(bits::rest(bb))(f) + (if f
                == bits::lsb(bb) % 8 {
                1int
            } else {
                0
            }),
{
    lemma_on_file_none(bits::rest(bb), -1);
    lemma_on_file_none(bits::rest(bb), 8);
    assert forall|f: int| 0 <= f < 8 implies #[trigger] by_file(bb)(f) == by_file(
        bits::rest(bb),
    )(f) + (if f == bits::lsb(bb) % 8 {
        1int
    } else {
        0
    }) by {
        lemma_on_file(bb, f);
    }
}

/// `b` holds the highest squares of `all`.
spec fn upper_part(b: u64, all: u64) -> bool {
    &&& forall|t: int| #[trigger] bits::mem(b, t) ==> bits::mem(all, t)
    &&& forall|t: int, u: int|
        #![trigger bits::mem(all, t), bits::mem(b, u)]
        bits::mem(all, t) && !bits::mem(b, t) && bits::mem(b, u) ==> t < u
}

proof fn lemma_upper_rest(b: u64, all: u64)
    requires
        b != 0,
        upper_part(b, all),
    ensures
        upper_part(bits::rest(b), all),
        forall|t: int|
            #[trigger] bits::mem(all, t) && t > bits::lsb(b) ==> bits::mem(bits::rest(b), t),
{
    bits::lemma_lsb(b);
    let r = bits::rest(b);
    assert forall|t: int| #[trigger] bits::mem(all, t) && t > bits::lsb(b) implies bits::mem(
        r,
        t,
    ) by {
        if !bits::mem(b, t) {
            assert(bits::mem(b, bits::lsb(b)));
        }
    }
    assert forall|t: int, u: int|
        #![trigger bits::mem(all, t), bits::mem(r, u)]
        bits::mem(all, t) && !bits::mem(r, t) && bits::mem(r, u) implies t < u by {
        assert(bits::mem(b, u));
    }
}

/// The pairs of a pawn with the pawns of its own colour on higher squares.
proof fn lemma_own_partners(c: Color, b: u64, all: u64)
    requires
        b != 0,
        upper_part(b, all),
    ensures
        pp_3wide::pairs_with(c, bits::lsb(b), c, all, true).len() <= near(
            by_file(bits::rest(b)),
            bits::lsb(b) % 8,
        ),
{
    let a = bits::lsb(b);
    let q = pp_3wide::partners(all, a, true);
    lemma_upper_rest(b, all);
    bits::lemma_lsb(b);
    assert forall|t: int| 0 <= t < 64 && #[trigger] q(t) implies bits::mem(bits::rest(b), t) && -1
        <= t % 8 - a % 8 <= 1 by {
        assert(bits::mem(all, t));
    }
    lemma_near(q, bits::rest(b), a);
    bits::lemma_flat_len(board::word_of(q), pp_3wide::partner_rec(c, a, c), 1);
}

proof fn lemma_white_pairs(b: u64, white: u64, black: u64)
    requires
        upper_part(b, white),
    ensures
        2 * bits::flat(b, pp_3wide::white_rec(white, black)).len() <= twice_paired(by_file(b)) + 2
            * across(by_file(b), by_file(black)),
    decreases b,
{
    let rec = pp_3wide::white_rec(white, black);
    if b == 0 {
        lemma_nothing(by_file(0), by_file(black));
    } else {
        let a = bits::lsb(b);
        let r = bits::rest(b);
        bits::lemma_lsb(b);
        lemma_upper_rest(b, white);
        lemma_white_pairs(r, white, black);
        lemma_own_partners(Color::White, b, white);
        let q = pp_3wide::partners(black, a, false);
        assert forall|t: int| 0 <= t < 64 && #[trigger] q(t) implies bits::mem(black, t) && -1 <= t
            % 8 - a % 8 <= 1 by {}
        lemma_near(q, black, a);
        bits::lemma_flat_len(
            board::word_of(q),
            pp_3wide::partner_rec(Color::White, a, Color::Black),
            1,
        );
        lemma_files_step(b);
        lemma_paired_step(by_file(b), by_file(r), a % 8);
        lemma_across_step(by_file(b), by_file(r), by_file(black), a % 8);
        assert(rec(a).len() == pp_3wide::pairs_with(
            Color::White,
            a,
            Color::White,
            white,
            true,
        ).len() + pp_3wide::pairs_with(Color::White, a, Color::Black, black, false).len());
    }
}

proof fn lemma_nothing(v: spec_fn(int) -> int, k: spec_fn(int) -> int)
    requires
        v == by_file(0),
    ensures
        twice_paired(v) == 0,
        across(v, k) == 0,
{
    lemma_on_file_none(0, 0);
    lemma_on_file_none(0, 1);
    lemma_on_file_none(0, 2);
    lemma_on_file_none(0, 3);
    lemma_on_file_none(0, 4);
    lemma_on_file_none(0, 5);
    lemma_on_file_none(0, 6);
    lemma_on_file_none(0, 7);
    assert(v(0) == 0 && v(1) == 0 && v(2) == 0 && v(3) == 0 && v(4) == 0 && v(5) == 0 && v(6) == 0
        && v(7) == 0);
}

proof fn lemma_black_pairs(b: u64, black: u64)
    requires
        upper_part(b, black),
    ensures
        2 * bits::flat(b, pp_3wide::black_rec(black)).len() <= twice_paired(by_file(b)),
    decreases b,
{
    if b == 0 {
        lemma_nothing(by_file(0), by_file(0));
    } else {
        let r = bits::rest(b);
        bits::lemma_lsb(b);
        lemma_upper_rest(b, black);
        lemma_black_pairs(r, black);
        lemma_own_partners(Color::Black, b, black);
        lemma_files_step(b);
        lemma_paired_step(by_file(b), by_file(r), bits::lsb(b) % 8);
    }
}

/// The pairs of two sets together.
proof fn lemma_together(
    u: spec_fn(int) -> int,
    w: spec_fn(int) -> int,
    b: spec_fn(int) -> int,
)
    requires
        forall|f: int| 0 <= f < 8 ==> #[trigger] u(f) == w(f) + b(f),
        b(-1) == 0,
        b(8) == 0,
    ensures
        twice_paired(u) == twice_paired(w) + twice_paired(b) + 2 * across(w, b),
{
    lemma_polynomial(
        w(0),
        w(1),
        w(2),
        w(3),
        w(4),
        w(5),
        w(6),
        w(7),
        b(0),
        b(1),
        b(2),
        b(3),
        b(4),
        b(5),
        b(6),
        b(7),
    );
    assert(u(0) == w(0) + b(0) && u(1) == w(1) + b(1) && u(2) == w(2) + b(2) && u(3) == w(3) + b(3));
    assert(u(4) == w(4) + b(4) && u(5) == w(5) + b(5) && u(6) == w(6) + b(6) && u(7) == w(7) + b(7));
    assert(near(b, 0) == b(0) + b(1) && near(b, 7) == b(6) + b(7));
    assert(near(b, 1) == b(0) + b(1) + b(2) && near(b, 2) == b(1) + b(2) + b(3));
    assert(near(b, 3) == b(2) + b(3) + b(4) && near(b, 4) == b(3) + b(4) + b(5));
    assert(near(b, 5) == b(4) + b(5) + b(6) && near(b, 6) == b(5) + b(6) + b(7));
}

proof fn lemma_polynomial(
    w0: int,
    w1: int,
    w2: int,
    w3: int,
    w4: int,
    w5: int,
    w6: int,
    w7: int,
    b0: int,
    b1: int,
    b2: int,
    b3: int,
    b4: int,
    b5: int,
    b6: int,
    b7: int,
)
    ensures
        (w0 + b0) * (w0 + b0) + (w1 + b1) * (w1 + b1) + (w2 + b2) * (w2 + b2) + (w3 + b3) * (w3
            + b3) + (w4 + b4) * (w4 + b4) + (w5 + b5) * (w5 + b5) + (w6 + b6) * (w6 + b6) + (w7
            + b7) * (w7 + b7) + 2 * ((w0 + b0) * (w1 + b1) + (w1 + b1) * (w2 + b2) + (w2 + b2) * (w3
            + b3) + (w3 + b3) * (w4 + b4) + (w4 + b4) * (w5 + b5) + (w5 + b5) * (w6 + b6) + (w6
            + b6) * (w7 + b7)) == (w0 * w0 + w1 * w1 + w2 * w2 + w3 * w3 + w4 * w4 + w5 * w5 + w6
            * w6 + w7 * w7 + 2 * (w0 * w1 + w1 * w2 + w2 * w3 + w3 * w4 + w4 * w5 + w5 * w6 + w6
            * w7)) + (b0 * b0 + b1 * b1 + b2 * b2 + b3 * b3 + b4 * b4 + b5 * b5 + b6 * b6 + b7 * b7
            + 2 * (b0 * b1 + b1 * b2 + b2 * b3 + b3 * b4 + b4 * b5 + b5 * b6 + b6 * b7)) + 2 * (w0
            * (b0 + b1) + w1 * (b0 + b1 + b2) + w2 * (b1 + b2 + b3) + w3 * (b2 + b3 + b4) + w4 * (b3
            + b4 + b5) + w5 * (b4 + b5 + b6) + w6 * (b5 + b6 + b7) + w7 * (b6 + b7)),
{
    lemma_square(w0, b0);
    lemma_square(w1, b1);
    lemma_square(w2, b2);
    lemma_square(w3, b3);
    lemma_square(w4, b4);
    lemma_square(w5, b5);
    lemma_square(w6, b6);
    lemma_square(w7, b7);
    lemma_crossed(w0, b0, w1, b1);
    lemma_crossed(w1, b1, w2, b2);
    lemma_crossed(w2, b2, w3, b3);
    lemma_crossed(w3, b3, w4, b4);
    lemma_crossed(w4, b4, w5, b5);
    lemma_crossed(w5, b5, w6, b6);
    lemma_crossed(w6, b6, w7, b7);
    lemma_spread(w0, 0, b0, b1);
    lemma_spread(w1, b0, b1, b2);
    lemma_spread(w2, b1, b2, b3);
    lemma_spread(w3, b2, b3, b4);
    lemma_spread(w4, b3, b4, b5);
    lemma_spread(w5, b4, b5, b6);
    lemma_spread(w6, b5, b6, b7);
    lemma_spread(w7, b6, b7, 0);
}

proof fn lemma_square(x: int, y: int)
    ensures
        (x + y) * (x + y) == x * x + 2 * (x * y) + y * y,
{
    assert((x + y) * (x + y) == x * x + 2 * (x * y) + y * y) by (nonlinear_arith);
}

proof fn lemma_crossed(x: int, y: int, z: int, t: int)
    ensures
        (x + y) * (z + t) == x * z + x * t + z * y + y * t,
{
    assert((x + y) * (z + t) == x * z + x * t + z * y + y * t) by (nonlinear_arith);
}

proof fn lemma_spread(x: int, p: int, q: int, r: int)
    ensures
        x * (p + q + r) == x * p + x * q + x * r,
        p == 0 ==> x * (q + r) == x * q + x * r,
        r == 0 ==> x * (p + q) == x * p + x * q,
{
    assert(x * (p + q + r) == x * p + x * q + x * r) by (nonlinear_arith);
    assert(x * (q + r) == x * q + x * r) by (nonlinear_arith);
    assert(x * (p + q) == x * p + x * q) by (nonlinear_arith);
}

// --- how many pairs there can be --------------------------------------------------------------

/// A file that holds the most.
proof fn lemma_fullest(v: spec_fn(int) -> int, n: int) -> (g: int)
    requires
        1 <= n,
    ensures
        0 <= g < n,
        forall|f: int| 0 <= f < n ==> #[trigger] v(f) <= v(g),
    decreases n,
{
    if n == 1 {
        0
    } else {
        let h = lemma_fullest(v, n - 1);
        if v(n - 1) > v(h) {
            n - 1
        } else {
            h
        }
    }
}

proof fn lemma_product_most(x: int, y: int, c: int)
    requires
        0 <= x,
        y <= c,
    ensures
        x * y <= c * x,
        y * x <= c * x,
{
    assert(x * y <= c * x && y * x <= c * x) by (nonlinear_arith)
        requires
            0 <= x,
            y <= c,
    ;
}

/// Each on a file pairs with at most so many on the neighbouring file towards
/// the fullest file as that one holds.
proof fn lemma_paired_most(v: spec_fn(int) -> int, g: int, n: int)
    requires
        0 <= g < 8,
        n == v(0) + v(1) + v(2) + v(3) + v(4) + v(5) + v(6) + v(7),
        forall|f: int| 0 <= f < 8 ==> 0 <= #[trigger] v(f) <= v(g),
    ensures
        twice_paired(v) <= 3 * (v(g) * n) - n - 2 * (v(g) * v(g)),
{
    let c = v(g);
    assert(0 <= v(0) <= c && 0 <= v(1) <= c && 0 <= v(2) <= c && 0 <= v(3) <= c);
    assert(0 <= v(4) <= c && 0 <= v(5) <= c && 0 <= v(6) <= c && 0 <= v(7) <= c);
    lemma_product_most(v(0), v(0), c);
    lemma_product_most(v(1), v(1), c);
    lemma_product_most(v(2), v(2), c);
    lemma_product_most(v(3), v(3), c);
    lemma_product_most(v(4), v(4), c);
    lemma_product_most(v(5), v(5), c);
    lemma_product_most(v(6), v(6), c);
    lemma_product_most(v(7), v(7), c);
    lemma_product_most(v(0), v(1), c);
    lemma_product_most(v(1), v(2), c);
    lemma_product_most(v(2), v(3), c);
    lemma_product_most(v(3), v(4), c);
    lemma_product_most(v(4), v(5), c);
    lemma_product_most(v(5), v(6), c);
    lemma_product_most(v(6), v(7), c);
    lemma_product_most(v(1), v(0), c);
    lemma_product_most(v(2), v(1), c);
    lemma_product_most(v(3), v(2), c);
    lemma_product_most(v(4), v(3), c);
    lemma_product_most(v(5), v(4), c);
    lemma_product_most(v(6), v(5), c);
    lemma_product_most(v(7), v(6), c);
    let (a0, a1, a2, a3) = (v(0), v(1), v(2), v(3));
    let (a4, a5, a6, a7) = (v(4), v(5), v(6), v(7));
    assert(c * (a0 + a1 + a2 + a3 + a4 + a5 + a6 + a7) == c * a0 + c * a1 + c * a2 + c * a3 + c * a4
        + c * a5 + c * a6 + c * a7) by (nonlinear_arith);
    assert(c * n == c * a0 + c * a1 + c * a2 + c * a3 + c * a4 + c * a5 + c * a6 + c * a7);
    assert(g == 0 || g == 1 || g == 2 || g == 3 || g == 4 || g == 5 || g == 6 || g == 7);
}

/// How many pairs of pawns there can be, by the number of pawns and the number
/// on the fullest file.
proof fn lemma_pairs_most(white: u64, black: u64) -> (c: int)
    requires
        balance::pawn_words(white, black),
    ensures
        0 <= c <= 6,
        ({
            let n = bits::ones(white) + bits::ones(black);
            2 * pp_3wide::active_pairs(white, black).len() <= 3 * (c * n) - n - 2 * (c * c)
        }),
{
    let w = by_file(white);
    let b = by_file(black);
    let u = |f: int| w(f) + b(f);
    let n = bits::ones(white) + bits::ones(black);
    lemma_white_pairs(white, white, black);
    lemma_black_pairs(black, black);
    lemma_on_file_none(black, -1);
    lemma_on_file_none(black, 8);
    lemma_together(u, w, b);
    lemma_all_files(white);
    lemma_all_files(black);
    let g = lemma_fullest(u, 8);
    assert forall|f: int| 0 <= f < 8 implies 0 <= #[trigger] u(f) <= u(g) by {}
    lemma_six(white, black, g);
    lemma_paired_most(u, g, n as int);
    u(g)
}

// --- attacks -----------------------------------------------------------------------------------

/// A square holds a knight, a bishop, a rook or a queen.
pub open spec fn officer(sq: Seq<u8>) -> spec_fn(int) -> bool {
    |s: int| 2 <= sq[s] as int % 8 <= 5
}

/// A square holds a piece that is no king.
pub open spec fn subject(sq: Seq<u8>) -> spec_fn(int) -> bool {
    |s: int| 1 <= sq[s] as int % 8 <= 5
}

/// At most 32 pieces stand on the board, at most 30 of them no kings.
pub open spec fn peopled(sq: Seq<u8>) -> bool {
    &&& bits::ones(board::word_of(half_ka_v2_hm::occupied(sq))) <= 32
    &&& bits::ones(board::word_of(subject(sq))) <= 30
}

proof fn lemma_kept_len(perspective: Color, ksq: int, ts: Seq<types::Threat>)
    ensures
        full_threats::kept(perspective, ksq, ts).len() <= ts.len(),
    decreases ts.len(),
{
    if ts.len() > 0 {
        lemma_kept_len(perspective, ksq, ts.drop_last());
    }
}

/// A set that another one tells apart has at most as many squares.
proof fn lemma_ones_shifted(a: u64, b: u64, step: int)
    requires
        forall|t: int| #[trigger] bits::mem(a, t) ==> bits::mem(b, t - step),
    ensures
        bits::ones(a) <= bits::ones(b),
{
    let f = |t: int| t - step;
    bits::lemma_ones_set(a);
    bits::lemma_ones_set(b);
    let image = bits::squares(a).map(f);
    assert(vstd::relations::injective_on(f, bits::squares(a)));
    vstd::set_lib::lemma_map_size(bits::squares(a), image, f);
    assert(image.subset_of(bits::squares(b))) by {
        assert forall|s: int| image.contains(s) implies bits::squares(b).contains(s) by {
            let t = choose|t: int| bits::squares(a).contains(t) && f(t) == s;
            assert(bits::mem(a, t));
        }
    }
    vstd::set_lib::lemma_len_subset(image, bits::squares(b));
}

/// Pawns attack in one direction at most once each, and each target once.
proof fn lemma_pawn_threats(sq: Seq<u8>, c: int, step: int)
    requires
        0 <= c < 2,
        board::valid_squares(sq),
    ensures
        full_threats::pawn_threats(sq, c, step).len() <= bits::ones(pp_3wide::pawn_word(sq, c)),
        full_threats::pawn_threats(sq, c, step).len() <= bits::ones(board::word_of(officer(sq))),
{
    let q = full_threats::pawn_targets(sq, c, step);
    let w = board::word_of(q);
    board::lemma_word_exists(q);
    board::lemma_word_exists(officer(sq));
    board::lemma_word_exists(full_threats::holding(sq, 8 * c + 1));
    bits::lemma_flat_len(w, full_threats::pawn_rec(sq, step), 1);
    assert forall|t: int| #[trigger] bits::mem(w, t) implies bits::mem(
        board::word_of(officer(sq)),
        t,
    ) by {
        assert(q(t));
        assert(officer(sq)(t));
    }
    bits::lemma_ones_mono(w, board::word_of(officer(sq)));
    assert forall|t: int| #[trigger] bits::mem(w, t) implies bits::mem(
        pp_3wide::pawn_word(sq, c),
        t - step,
    ) by {
        assert(q(t));
        assert(full_threats::holding(sq, 8 * c + 1)(t - step));
    }
    lemma_ones_shifted(w, pp_3wide::pawn_word(sq, c), step);
}

/// Pieces attack at most eight others each.
proof fn lemma_piece_threats(sq: Seq<u8>, pc: int)
    requires
        board::valid_squares(sq),
        types::is_piece(pc),
    ensures
        full_threats::piece_threats(sq, pc).len() <= 8 * bits::ones(
            board::word_of(full_threats::holding(sq, pc)),
        ),
{
    let w = board::word_of(full_threats::holding(sq, pc));
    let rec = full_threats::piece_rec(sq, pc);
    board::lemma_word_exists(full_threats::holding(sq, pc));
    assert forall|s: int| bits::mem(w, s) implies (#[trigger] rec(s)).len() <= 8 by {
        capacity::lemma_targets(sq, pc, s);
        bits::lemma_flat_len(
            board::word_of(board::attacks_at(sq, pc, s)),
            full_threats::hit_rec(sq, s),
            1,
        );
    }
    bits::lemma_flat_len(w, rec, 8);
}

/// Disjoint sets within a set.
proof fn lemma_ones_apart(a: u64, b: u64, c: u64)
    requires
        forall|s: int| !(#[trigger] bits::mem(a, s) && bits::mem(b, s)),
        forall|s: int| #[trigger] bits::mem(a, s) ==> bits::mem(c, s),
        forall|s: int| #[trigger] bits::mem(b, s) ==> bits::mem(c, s),
    ensures
        bits::ones(a) + bits::ones(b) <= bits::ones(c),
        bits::ones(a) + bits::ones(b) == bits::ones(a | b),
{
    broadcast use bits::group_mem;

    bits::lemma_ones_disjoint(a, b);
    bits::lemma_ones_mono(a | b, c);
}

/// The officers of a colour.
spec fn officers_of(sq: Seq<u8>, c: int) -> spec_fn(int) -> bool {
    |s: int| 8 * c + 2 <= sq[s] <= 8 * c + 5
}

proof fn lemma_color_threats(sq: Seq<u8>, c: int)
    requires
        board::valid_squares(sq),
        0 <= c < 2,
    ensures
        full_threats::color_threats(sq, c).len() <= 8 * bits::ones(
            board::word_of(officers_of(sq, c)),
        ),
{
    broadcast use bits::group_mem;

    let k = 8 * c;
    let h2 = board::word_of(full_threats::holding(sq, k + 2));
    let h3 = board::word_of(full_threats::holding(sq, k + 3));
    let h4 = board::word_of(full_threats::holding(sq, k + 4));
    let h5 = board::word_of(full_threats::holding(sq, k + 5));
    let all = board::word_of(officers_of(sq, c));
    board::lemma_word_exists(full_threats::holding(sq, k + 2));
    board::lemma_word_exists(full_threats::holding(sq, k + 3));
    board::lemma_word_exists(full_threats::holding(sq, k + 4));
    board::lemma_word_exists(full_threats::holding(sq, k + 5));
    board::lemma_word_exists(officers_of(sq, c));
    lemma_piece_threats(sq, k + 2);
    lemma_piece_threats(sq, k + 3);
    lemma_piece_threats(sq, k + 4);
    lemma_piece_threats(sq, k + 5);
    lemma_ones_apart(h2, h3, all);
    lemma_ones_apart(h4, h5, all);
    lemma_ones_apart(h2 | h3, h4 | h5, all);
}

/// How many attacks there can be on a board.
proof fn lemma_threats(sq: Seq<u8>, n: int, m: int)
    requires
        board::valid_squares(sq),
        n == bits::ones(pp_3wide::pawn_word(sq, 0)) + bits::ones(pp_3wide::pawn_word(sq, 1)),
        m == bits::ones(board::word_of(officer(sq))),
    ensures
        full_threats::active_threats(sq).len() <= 8 * m + 2 * n,
        full_threats::active_threats(sq).len() <= 12 * m,
{
    let o = board::word_of(officer(sq));
    let a = board::word_of(officers_of(sq, 0));
    let b = board::word_of(officers_of(sq, 1));
    board::lemma_word_exists(officer(sq));
    board::lemma_word_exists(officers_of(sq, 0));
    board::lemma_word_exists(officers_of(sq, 1));
    lemma_color_threats(sq, 0);
    lemma_color_threats(sq, 1);
    lemma_pawn_threats(sq, 0, 9);
    lemma_pawn_threats(sq, 0, 7);
    lemma_pawn_threats(sq, 1, -9);
    lemma_pawn_threats(sq, 1, -7);
    lemma_ones_apart(a, b, o);
}

/// Pawns and officers are no kings.
proof fn lemma_subjects(sq: Seq<u8>)
    requires
        board::valid_squares(sq),
    ensures
        bits::ones(pp_3wide::pawn_word(sq, 0)) + bits::ones(pp_3wide::pawn_word(sq, 1))
            + bits::ones(board::word_of(officer(sq))) <= bits::ones(board::word_of(subject(sq))),
{
    broadcast use bits::group_mem;

    let w = pp_3wide::pawn_word(sq, 0);
    let b = pp_3wide::pawn_word(sq, 1);
    let o = board::word_of(officer(sq));
    let all = board::word_of(subject(sq));
    board::lemma_word_exists(full_threats::holding(sq, 1));
    board::lemma_word_exists(full_threats::holding(sq, 9));
    board::lemma_word_exists(officer(sq));
    board::lemma_word_exists(subject(sq));
    lemma_ones_apart(w, b, all);
    lemma_ones_apart(w | b, o, all);
}

proof fn lemma_count(n: int, m: int, t: int, p: int, c: int)
    requires
        0 <= n,
        0 <= m,
        n + m <= 30,
        t <= 8 * m + 2 * n,
        t <= 12 * m,
        0 <= c <= 6,
        2 * p <= 3 * (c * n) - n - 2 * (c * c),
    ensures
        t + p <= 256,
{
    assert(c == 0 || c == 1 || c == 2 || c == 3 || c == 4 || c == 5 || c == 6);
    assert(c * n == (if c == 0 {
        0
    } else if c == 1 {
        n
    } else if c == 2 {
        2 * n
    } else if c == 3 {
        3 * n
    } else if c == 4 {
        4 * n
    } else if c == 5 {
        5 * n
    } else {
        6 * n
    })) by (nonlinear_arith)
        requires
            0 <= c <= 6,
    ;
    assert(c * c == (if c == 0 {
        0
    } else if c == 1 {
        1
    } else if c == 2 {
        4
    } else if c == 3 {
        9
    } else if c == 4 {
        16
    } else if c == 5 {
        25
    } else {
        36int
    })) by (nonlinear_arith)
        requires
            0 <= c <= 6,
    ;
}

/// No board with 32 pieces, two of them kings, has more than 240 attacks.
pub proof fn law_threats_fit(sq: Seq<u8>)
    requires
        board::valid_squares(sq),
        peopled(sq),
    ensures
        full_threats::active_threats(sq).len() <= 240,
{
    let n = bits::ones(pp_3wide::pawn_word(sq, 0)) + bits::ones(pp_3wide::pawn_word(sq, 1));
    let m = bits::ones(board::word_of(officer(sq)));
    lemma_threats(sq, n as int, m as int);
    lemma_subjects(sq);
}

/// The features of a board fit into the lists that an accumulator sums up: no
/// board with 32 pieces, two of them kings, has more than 256 attacks and pairs
/// of pawns.
pub proof fn law_features_fit(sq: Seq<u8>, perspective: Color)
    requires
        board::valid_squares(sq),
        peopled(sq),
        pp_3wide::pawn_ranks(pp_3wide::pawn_word(sq, 0)),
        pp_3wide::pawn_ranks(pp_3wide::pawn_word(sq, 1)),
    ensures
        incremental::fits(sq, perspective),
{
    let ksq = board::king_of(sq, perspective.index());
    let w = pp_3wide::pawn_word(sq, 0);
    let b = pp_3wide::pawn_word(sq, 1);
    let n = bits::ones(w) + bits::ones(b);
    let m = bits::ones(board::word_of(officer(sq)));
    board::lemma_word_exists(full_threats::holding(sq, 1));
    board::lemma_word_exists(full_threats::holding(sq, 9));
    assert(balance::pawn_words(w, b));
    let c = lemma_pairs_most(w, b);
    lemma_threats(sq, n as int, m as int);
    lemma_subjects(sq);
    lemma_kept_len(perspective, ksq, full_threats::active_threats(sq));
    lemma_count(
        n as int,
        m as int,
        full_threats::active_threats(sq).len() as int,
        pp_3wide::active_pairs(w, b).len() as int,
        c,
    );
    bits::lemma_flat_len(
        board::word_of(half_ka_v2_hm::occupied(sq)),
        half_ka_v2_hm::square_rec(perspective, sq, ksq),
        1,
    );
}

/// The pairs of at most 32 pawns, and so those that a change of the pawns makes,
/// fit into a list.
pub proof fn law_changed_pairs_fit(w0: u64, b0: u64, w1: u64, b1: u64)
    requires
        balance::pawn_words(w0, b0),
        balance::pawn_words(w1, b1),
        bits::ones(w1) + bits::ones(b1) <= 32,
    ensures
        pp_3wide::active_pairs(w1, b1).len() <= 256,
        pp_3wide::changed_pairs(pp_3wide::fresh(w0, b0, w1, b1), w1, b1).len() <= 256,
{
    let c = lemma_pairs_most(w1, b1);
    let n = bits::ones(w1) + bits::ones(b1);
    assert(3 * (c * n) - n - 2 * (c * c) <= 512) by (nonlinear_arith)
        requires
            0 <= c <= 6,
            0 <= n <= 32,
    ;
    let all = pp_3wide::active_pairs(w1, b1);
    let changed = pp_3wide::changed_pairs(pp_3wide::fresh(w0, b0, w1, b1), w1, b1);
    let before = pp_3wide::numbered(Color::White, 0, pp_3wide::active_pairs(w0, b0));
    let after = pp_3wide::numbered(Color::White, 0, all);
    let made = pp_3wide::numbered(Color::White, 0, changed);
    balance::law_changed_indices(Color::White, 0, w0, b0, w1, b1);
    made.unique_seq_to_set();
    after.lemma_cardinality_of_set();
    vstd::seq_lib::seq_to_set_is_finite(made);
    vstd::seq_lib::seq_to_set_is_finite(after);
    assert(made.to_set().subset_of(after.to_set())) by {
        assert forall|i: u16| made.to_set().contains(i) implies after.to_set().contains(i) by {
            assert(made.contains(i));
        }
    }
    vstd::set_lib::lemma_len_subset(made.to_set(), after.to_set());
}

/// The pieces of a position are at most 32, two of them kings.
pub proof fn lemma_peopled(p: Placement)
    requires
        p.wf(),
    ensures
        peopled(p.sq()),
{
    broadcast use bits::group_mem;

    let sq = p.sq();
    let occ = board::word_of(half_ka_v2_hm::occupied(sq));
    let all = board::word_of(subject(sq));
    board::lemma_word_exists(half_ka_v2_hm::occupied(sq));
    board::lemma_word_exists(subject(sq));
    p.lemma_sq();
    assert forall|s: int| #[trigger] bits::mem(occ, s) implies bits::mem(p.white | p.black, s) by {
        assert(p.role_code(s) != 0);
    }
    assert forall|s: int| !(#[trigger] bits::mem(p.white, s) && bits::mem(p.black, s)) by {}
    bits::lemma_ones_disjoint(p.white, p.black);
    bits::lemma_ones_mono(occ, p.white | p.black);
    assert forall|s: int| #[trigger] bits::mem(all, s) implies !bits::mem(p.kings, s) && bits::mem(
        p.white | p.black,
        s,
    ) by {
        assert(p.role_code(s) != 0);
        assert(sq[s] as int % 8 == p.role_code(s));
    }
    lemma_ones_apart(p.kings & p.white, all & p.white, p.white);
    lemma_ones_apart(p.kings & p.black, all & p.black, p.black);
    let whole = (all & p.white) | (all & p.black);
    assert forall|s: int| !(#[trigger] bits::mem(all & p.white, s) && bits::mem(all & p.black, s)) by {}
    bits::lemma_ones_disjoint(all & p.white, all & p.black);
    bits::lemma_ones_mono(all, whole);
}

} // verus!
