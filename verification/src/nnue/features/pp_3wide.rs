//! Which pawn stands near which.
//!
//! A feature is a pair of pawns on one file or on neighbouring files. A pair
//! has no order: the two pawns are numbered, and the pair has its place in the
//! upper half of the square of those numbers. The features follow those of the
//! attacks, so that one index names either.
use vstd::prelude::*;
use crate::bits;
use crate::nnue::attacks::{pawn_pair_bb, pop_lsb};
use crate::nnue::attacks;
use crate::nnue::board::Board;
use crate::nnue::board;
use crate::nnue::features;
use crate::nnue::features::full_threats;
use crate::nnue::types::{Bitboard, Color, DirtyPawnPairs, ValueList};

verus! {

/// What a network file names this set by.
pub const HASH_VALUE: u32 = 0x86f2_b1dd;

/// 48 squares for each colour, ranks 2 to 7.
pub const PAWN_IDS: usize = 96;

/// The number of features.
pub const DIMENSIONS: usize = 4560;

/// Where the features begin, right after those of the attacks.
pub const INDEX_BASE: usize = 59808;

pub type IndexList = ValueList<u16, 256>;

/// The number of a pawn: 48 for each colour.
pub open spec fn pawn_id(side: int, s: int) -> int {
    48 * side + s - 8
}

/// The number of a pawn of the colour index `color` on `sq`.
pub fn make_pawn_id(color: usize, sq: usize) -> (r: u32)
    requires
        color < 2,
        8 <= sq <= 55,
    ensures
        r == pawn_id(color as int, sq as int),
        r < PAWN_IDS,
{
    48 * color as u32 + (sq - 8) as u32
}

/// The place of two numbers, the higher one first, in the upper half of their
/// square.
pub open spec fn triangle(hi: int, lo: int) -> int {
    hi * (hi - 1) / 2 + lo
}

/// The place of two numbers in either order.
pub open spec fn pair_place(a: int, b: int) -> int {
    if a > b {
        triangle(a, b)
    } else {
        triangle(b, a)
    }
}

/// The number of a pawn as `perspective` sees it with its king on `ksq`.
#[verifier::opaque]
pub open spec fn seen_id(perspective: Color, c: Color, s: int, ksq: int) -> int {
    pawn_id(
        if c == perspective {
            0
        } else {
            1
        },
        full_threats::seen_square(perspective, s, ksq),
    )
}

/// The feature of a pair of pawns, as `perspective` sees it with its king on
/// `ksq`.
pub open spec fn index(
    perspective: Color,
    color: Color,
    from: int,
    to: int,
    paired_color: Color,
    ksq: int,
) -> int {
    INDEX_BASE + pair_place(
        seen_id(perspective, color, from, ksq),
        seen_id(perspective, paired_color, to, ksq),
    )
}

/// Different numbers have a place below the number of pairs.
pub proof fn lemma_triangle(hi: int, lo: int)
    requires
        0 <= lo < hi < 96,
    ensures
        0 <= triangle(hi, lo) < 4560,
        (hi * (hi - 1)) % 2 == 0,
        triangle(hi, lo) < triangle(hi + 1, 0),
{
    assert(0 <= hi * (hi - 1) <= 95 * 94) by (nonlinear_arith)
        requires
            0 < hi < 96,
    ;
    assert((hi + 1) * hi == hi * (hi - 1) + 2 * hi) by (nonlinear_arith);
    lemma_even(hi);
}

proof fn lemma_even(n: int)
    requires
        0 <= n,
    ensures
        (n * (n - 1)) % 2 == 0,
    decreases n,
{
    if n > 0 {
        lemma_even(n - 1);
        assert(n * (n - 1) == (n - 1) * (n - 2) + 2 * (n - 1)) by (nonlinear_arith);
    }
}

/// The feature of the pawns of `color` on `from` and of `paired_color` on
/// `to`.
pub fn make_index(
    perspective: Color,
    color: Color,
    from: usize,
    to: usize,
    paired_color: Color,
    ksq: usize,
) -> (r: u16)
    requires
        8 <= from <= 55,
        8 <= to <= 55,
        ksq < 64,
        from != to || color != paired_color,
    ensures
        r == index(perspective, color, from as int, to as int, paired_color, ksq as int),
        INDEX_BASE <= r < INDEX_BASE + DIMENSIONS,
{
    let turn: bool = match perspective {
        Color::White => false,
        Color::Black => true,
    };
    let mirror: bool = ksq % 8 >= 4;
    proof {
        features::lemma_oriented(from as int, mirror, turn);
        features::lemma_oriented(to as int, mirror, turn);
    }
    let f: usize = features::orient(from, mirror, turn);
    let t: usize = features::orient(to, mirror, turn);
    let a: u32 = make_pawn_id(
        if color == perspective {
            0
        } else {
            1
        },
        f,
    );
    let b: u32 = make_pawn_id(
        if paired_color == perspective {
            0
        } else {
            1
        },
        t,
    );
    let hi: u32 = if a > b {
        a
    } else {
        b
    };
    let lo: u32 = if a > b {
        b
    } else {
        a
    };
    proof {
        assert(a == seen_id(perspective, color, from as int, ksq as int) && b == seen_id(
            perspective,
            paired_color,
            to as int,
            ksq as int,
        )) by {
            reveal(seen_id);
        }
        lemma_ids_differ(perspective, color, from as int, paired_color, to as int, ksq as int);
        lemma_triangle(hi as int, lo as int);
        assert(hi * (hi - 1) <= 95 * 94) by (nonlinear_arith)
            requires
                0 < hi < 96,
        ;
    }
    (hi * (hi - 1) / 2 + lo + INDEX_BASE as u32) as u16
}

/// The feature of a pair of different pawns lies within the set.
pub proof fn lemma_index_range(
    perspective: Color,
    c: Color,
    a: int,
    b: int,
    d: Color,
    ksq: int,
)
    requires
        0 <= ksq < 64,
        8 <= a <= 55,
        8 <= b <= 55,
        a != b || c != d,
    ensures
        INDEX_BASE <= index(perspective, c, a, b, d, ksq) < INDEX_BASE + DIMENSIONS,
{
    lemma_ids_differ(perspective, c, a, d, b, ksq);
    let x = seen_id(perspective, c, a, ksq);
    let y = seen_id(perspective, d, b, ksq);
    if x > y {
        lemma_triangle(x, y);
    } else {
        lemma_triangle(y, x);
    }
}

/// The order of the two pawns does not matter.
pub proof fn law_pair_unordered(
    perspective: Color,
    c: Color,
    a: int,
    d: Color,
    b: int,
    ksq: int,
)
    ensures
        index(perspective, c, a, b, d, ksq) == index(perspective, d, b, a, c, ksq),
{
}

/// Different pairs of numbers have different places.
pub proof fn lemma_triangle_differs(h1: int, l1: int, h2: int, l2: int)
    requires
        0 <= l1 < h1 < 96,
        0 <= l2 < h2 < 96,
        triangle(h1, l1) == triangle(h2, l2),
    ensures
        h1 == h2,
        l1 == l2,
{
    lemma_triangle(h1, l1);
    lemma_triangle(h2, l2);
    if h1 < h2 {
        assert((h1 + 1) * h1 <= h2 * (h2 - 1)) by (nonlinear_arith)
            requires
                0 <= h1,
                h1 + 1 <= h2,
        ;
    }
    if h2 < h1 {
        assert((h2 + 1) * h2 <= h1 * (h1 - 1)) by (nonlinear_arith)
            requires
                0 <= h2,
                h2 + 1 <= h1,
        ;
    }
}

/// Two pairs of pawns have one feature exactly when they are the same pair.
pub proof fn law_pairs_differ(
    perspective: Color,
    ksq: int,
    c1: Color,
    a1: int,
    d1: Color,
    b1: int,
    c2: Color,
    a2: int,
    d2: Color,
    b2: int,
)
    requires
        0 <= ksq < 64,
        8 <= a1 <= 55,
        8 <= b1 <= 55,
        8 <= a2 <= 55,
        8 <= b2 <= 55,
        a1 != b1 || c1 != d1,
        a2 != b2 || c2 != d2,
    ensures
        index(perspective, c1, a1, b1, d1, ksq) == index(perspective, c2, a2, b2, d2, ksq) <==> (
        (a1 == a2 && c1 == c2 && b1 == b2 && d1 == d2) || (a1 == b2 && c1 == d2 && b1 == a2 && d1
            == c2)),
{
    lemma_ids_differ(perspective, c1, a1, d1, b1, ksq);
    lemma_ids_differ(perspective, c2, a2, d2, b2, ksq);
    lemma_ids_differ(perspective, c1, a1, c2, a2, ksq);
    lemma_ids_differ(perspective, c1, a1, d2, b2, ksq);
    lemma_ids_differ(perspective, d1, b1, c2, a2, ksq);
    lemma_ids_differ(perspective, d1, b1, d2, b2, ksq);
    law_pair_places(
        seen_id(perspective, c1, a1, ksq),
        seen_id(perspective, d1, b1, ksq),
        seen_id(perspective, c2, a2, ksq),
        seen_id(perspective, d2, b2, ksq),
    );
}

/// Different pawns have different numbers.
proof fn lemma_ids_differ(perspective: Color, c: Color, a: int, d: Color, b: int, ksq: int)
    requires
        0 <= ksq < 64,
        8 <= a <= 55,
        8 <= b <= 55,
    ensures
        0 <= seen_id(perspective, c, a, ksq) < 96,
        0 <= seen_id(perspective, d, b, ksq) < 96,
        seen_id(perspective, c, a, ksq) == seen_id(perspective, d, b, ksq) <==> a == b && c == d,
{
    reveal(seen_id);
    let m = full_threats::mirrors(ksq);
    let t = perspective == Color::Black;
    features::lemma_oriented(a, m, t);
    features::lemma_oriented(b, m, t);
}

/// Places of unordered pairs of numbers are the same exactly for the same
/// pairs.
pub proof fn law_pair_places(x1: int, y1: int, x2: int, y2: int)
    requires
        0 <= x1 < 96,
        0 <= y1 < 96,
        0 <= x2 < 96,
        0 <= y2 < 96,
        x1 != y1,
        x2 != y2,
    ensures
        pair_place(x1, y1) == pair_place(x2, y2) <==> (x1 == x2 && y1 == y2) || (x1 == y2 && y1
            == x2),
{
    let h1 = if x1 > y1 {
        x1
    } else {
        y1
    };
    let l1 = if x1 > y1 {
        y1
    } else {
        x1
    };
    let h2 = if x2 > y2 {
        x2
    } else {
        y2
    };
    let l2 = if x2 > y2 {
        y2
    } else {
        x2
    };
    if triangle(h1, l1) == triangle(h2, l2) {
        lemma_triangle_differs(h1, l1, h2, l2);
    }
}

/// Two pawns, the one on the lower square first.
pub struct Pair {
    pub a: int,
    pub ca: Color,
    pub b: int,
    pub cb: Color,
}

/// The pair of two pawns.
pub open spec fn pair(c: Color, from: int, d: Color, to: int) -> Pair {
    if from < to {
        Pair { a: from, ca: c, b: to, cb: d }
    } else {
        Pair { a: to, ca: d, b: from, cb: c }
    }
}

/// The feature of a pair.
pub open spec fn number(perspective: Color, ksq: int) -> spec_fn(Pair) -> u16 {
    |p: Pair| index(perspective, p.ca, p.a, p.b, p.cb, ksq) as u16
}

/// The features of pairs, in their order.
pub open spec fn numbered(perspective: Color, ksq: int, ps: Seq<Pair>) -> Seq<u16> {
    ps.map_values(number(perspective, ksq))
}

pub open spec fn partner_rec(c: Color, a: int, d: Color) -> spec_fn(int) -> Seq<Pair> {
    |t: int| seq![pair(c, a, d, t)]
}

/// The pawns of `bb` that pair with a pawn on `a`, those on lower squares left
/// out where `above` says so.
pub open spec fn partners(bb: u64, a: int, above: bool) -> spec_fn(int) -> bool {
    |t: int| bits::mem(bb, t) && attacks::pairs(a, t) && (above ==> t > a)
}

/// The pairs of a pawn of the colour `c` on `a` with pawns of the colour `d`.
pub open spec fn pairs_with(c: Color, a: int, d: Color, bb: u64, above: bool) -> Seq<Pair> {
    bits::flat(board::word_of(partners(bb, a, above)), partner_rec(c, a, d))
}

pub open spec fn white_rec(white: u64, black: u64) -> spec_fn(int) -> Seq<Pair> {
    |a: int|
        pairs_with(Color::White, a, Color::White, white, true) + pairs_with(
            Color::White,
            a,
            Color::Black,
            black,
            false,
        )
}

pub open spec fn black_rec(black: u64) -> spec_fn(int) -> Seq<Pair> {
    |a: int| pairs_with(Color::Black, a, Color::Black, black, true)
}

/// All pairs of the pawns of two words, each once.
pub open spec fn active_pairs(white: u64, black: u64) -> Seq<Pair> {
    bits::flat(white, white_rec(white, black)) + bits::flat(black, black_rec(black))
}

/// The pawns stand on ranks 2 to 7.
pub open spec fn pawn_ranks(bb: u64) -> bool {
    forall|s: int| #[trigger] bits::mem(bb, s) ==> 8 <= s <= 55
}

/// The pawns of a colour on a board.
pub open spec fn pawn_word(sq: Seq<u8>, c: int) -> u64 {
    board::word_of(full_threats::holding(sq, 8 * c + 1))
}

proof fn lemma_numbered_add(perspective: Color, ksq: int, a: Seq<Pair>, b: Seq<Pair>)
    ensures
        numbered(perspective, ksq, a + b) == numbered(perspective, ksq, a) + numbered(
            perspective,
            ksq,
            b,
        ),
{
    assert(numbered(perspective, ksq, a + b) =~= numbered(perspective, ksq, a) + numbered(
        perspective,
        ksq,
        b,
    ));
}

proof fn lemma_chain(perspective: Color, ksq: int, start: Seq<u16>, a: Seq<Pair>, b: Seq<Pair>)
    ensures
        bits::capped(
            bits::capped(start + numbered(perspective, ksq, a), 256) + numbered(
                perspective,
                ksq,
                b,
            ),
            256,
        ) == bits::capped(start + numbered(perspective, ksq, a + b), 256),
{
    lemma_numbered_add(perspective, ksq, a, b);
    let x = numbered(perspective, ksq, a);
    let y = numbered(perspective, ksq, b);
    bits::lemma_capped(start + x, y, 256);
    assert((start + x) + y =~= start + (x + y));
}

/// Appends the pairs of the pawn on `a` with the pawns of `bb`.
fn append_partners(
    perspective: Color,
    ksq: usize,
    c: Color,
    a: usize,
    d: Color,
    bb: Bitboard,
    out: &mut IndexList,
)
    requires
        ksq < 64,
        8 <= a <= 55,
        old(out)@.len() <= 256,
        forall|t: int| #[trigger] bits::mem(bb, t) ==> 8 <= t <= 55 && t != a,
    ensures
        final(out)@ == bits::capped(
            old(out)@ + numbered(
                perspective,
                ksq as int,
                bits::flat(bb, partner_rec(c, a as int, d)),
            ),
            256,
        ),
        final(out)@.len() <= 256,
{
    let ghost rec = partner_rec(c, a as int, d);
    let ghost start = out@;
    let mut b: Bitboard = bb;
    while b != 0
        invariant
            ksq < 64,
            8 <= a <= 55,
            out@.len() <= 256,
            rec == partner_rec(c, a as int, d),
            forall|t: int| #[trigger] bits::mem(b, t) ==> 8 <= t <= 55 && t != a,
            bits::capped(
                out@ + numbered(perspective, ksq as int, bits::flat(b, rec)),
                256,
            ) == bits::capped(start + numbered(perspective, ksq as int, bits::flat(bb, rec)), 256),
        decreases b,
    {
        let ghost b0 = b;
        let ghost l0 = out@;
        let t: usize = pop_lsb(&mut b);
        out.push(make_index(perspective, c, a, t, d, ksq));
        proof {
            let p = pair(c, a as int, d, t as int);
            law_pair_unordered(perspective, c, a as int, d, t as int, ksq as int);
            let one = seq![p];
            assert(rec(t as int) =~= one);
            assert(bits::flat(b0, rec) =~= one + bits::flat(b, rec));
            let v = numbered(perspective, ksq as int, one);
            assert(v =~= seq![number(perspective, ksq as int)(p)]);
            assert(l0.push(number(perspective, ksq as int)(p)) =~= l0 + v);
            lemma_numbered_add(perspective, ksq as int, one, bits::flat(b, rec));
            let w = numbered(perspective, ksq as int, bits::flat(b, rec));
            bits::lemma_capped(l0 + v, w, 256);
            assert((l0 + v) + w =~= l0 + (v + w));
        }
    }
    assert(out@ + numbered(perspective, ksq as int, bits::flat(0u64, rec)) =~= out@);
}

/// Appends the features of every pair of pawns on the board.
#[verifier::spinoff_prover]
pub fn append_active_indices(perspective: Color, board: &Board, active: &mut IndexList)
    requires
        board.wf(),
        board.king_sq(perspective) < 64,
        pawn_ranks(pawn_word(board.sq(), 0)),
        pawn_ranks(pawn_word(board.sq(), 1)),
    ensures
        final(active)@ == bits::capped(
            old(active)@ + numbered(
                perspective,
                board.king_sq(perspective),
                active_pairs(pawn_word(board.sq(), 0), pawn_word(board.sq(), 1)),
            ),
            256,
        ),
{
    let n: usize = active.size();
    let ksq: usize = board.king_square(perspective);
    let white: Bitboard = board.pawns(Color::White);
    let black: Bitboard = board.pawns(Color::Black);
    proof {
        board::lemma_word_of(white, full_threats::holding(board.sq(), 1));
        board::lemma_word_of(black, full_threats::holding(board.sq(), 9));
    }
    let ghost k = ksq as int;
    let ghost start = active@;
    let ghost wrec = white_rec(white, black);
    let mut bb: Bitboard = white;
    while bb != 0
        invariant
            ksq < 64,
            k == ksq,
            wrec == white_rec(white, black),
            pawn_ranks(white),
            pawn_ranks(black),
            active@.len() <= 256,
            forall|t: int| #[trigger] bits::mem(bb, t) ==> bits::mem(white, t),
            forall|t: int, u: int|
                bits::mem(white, t) && !bits::mem(bb, t) && #[trigger] bits::mem(bb, u)
                    && #[trigger] bits::mem(white, t) ==> t < u,
            forall|t: int|
                #[trigger] bits::mem(white, t) && bits::mem(black, t) ==> false,
            bits::capped(
                active@ + numbered(perspective, k, bits::flat(bb, wrec)),
                256,
            ) == bits::capped(start + numbered(perspective, k, bits::flat(white, wrec)), 256),
        decreases bb,
    {
        let ghost b0 = bb;
        let ghost l0 = active@;
        proof {
            bits::lemma_lsb(bb);
        }
        let from: usize = pop_lsb(&mut bb);
        let band: Bitboard = pawn_pair_bb(from);
        let ww: Bitboard = band & bb;
        let wb: Bitboard = band & black;
        proof {
            assert(bits::mem(white, from as int));
            assert forall|t: int| #[trigger] bits::mem(ww, t) == (bits::mem(white, t)
                && attacks::pairs(from as int, t) && t > from) by {
                bits::mem_and(band, bb, t);
                if bits::mem(white, t) && t > from && !bits::mem(b0, t) {
                    assert(bits::mem(b0, from as int));
                }
            }
            assert forall|t: int| #[trigger] bits::mem(wb, t) == (bits::mem(black, t)
                && attacks::pairs(from as int, t)) by {
                bits::mem_and(band, black, t);
            }
            board::lemma_word_of(ww, partners(white, from as int, true));
            board::lemma_word_of(wb, partners(black, from as int, false));
        }
        append_partners(perspective, ksq, Color::White, from, Color::White, ww, active);
        append_partners(perspective, ksq, Color::White, from, Color::Black, wb, active);
        proof {
            let p1 = pairs_with(Color::White, from as int, Color::White, white, true);
            let p2 = pairs_with(Color::White, from as int, Color::Black, black, false);
            lemma_chain(perspective, k, l0, p1, p2);
            lemma_chain(perspective, k, l0, p1 + p2, bits::flat(bb, wrec));
            assert(bits::flat(b0, wrec) =~= (p1 + p2) + bits::flat(bb, wrec));
        }
    }
    proof {
        assert(active@ + numbered(perspective, k, bits::flat(0u64, wrec)) =~= active@);
    }
    let ghost middle = active@;
    let ghost brec = black_rec(black);
    let mut bb: Bitboard = black;
    while bb != 0
        invariant
            ksq < 64,
            k == ksq,
            brec == black_rec(black),
            pawn_ranks(black),
            active@.len() <= 256,
            forall|t: int| #[trigger] bits::mem(bb, t) ==> bits::mem(black, t),
            forall|t: int, u: int|
                bits::mem(black, t) && !bits::mem(bb, t) && #[trigger] bits::mem(bb, u)
                    && #[trigger] bits::mem(black, t) ==> t < u,
            bits::capped(
                active@ + numbered(perspective, k, bits::flat(bb, brec)),
                256,
            ) == bits::capped(middle + numbered(perspective, k, bits::flat(black, brec)), 256),
        decreases bb,
    {
        let ghost b0 = bb;
        let ghost l0 = active@;
        proof {
            bits::lemma_lsb(bb);
        }
        let from: usize = pop_lsb(&mut bb);
        let band: Bitboard = pawn_pair_bb(from);
        let bk: Bitboard = band & bb;
        proof {
            assert(bits::mem(black, from as int));
            assert forall|t: int| #[trigger] bits::mem(bk, t) == (bits::mem(black, t)
                && attacks::pairs(from as int, t) && t > from) by {
                bits::mem_and(band, bb, t);
                if bits::mem(black, t) && t > from && !bits::mem(b0, t) {
                    assert(bits::mem(b0, from as int));
                }
            }
            board::lemma_word_of(bk, partners(black, from as int, true));
        }
        append_partners(perspective, ksq, Color::Black, from, Color::Black, bk, active);
        proof {
            let p1 = pairs_with(Color::Black, from as int, Color::Black, black, true);
            lemma_chain(perspective, k, l0, p1, bits::flat(bb, brec));
            assert(bits::flat(b0, brec) =~= p1 + bits::flat(bb, brec));
        }
    }
    proof {
        assert(active@ + numbered(perspective, k, bits::flat(0u64, brec)) =~= active@);
        lemma_chain(perspective, k, start, bits::flat(white, wrec), bits::flat(black, brec));
    }
}

/// The pawns of `bb` that pair with a changed pawn on `a`: unchanged ones, and
/// changed ones on higher squares.
pub open spec fn new_partners(bb: u64, updated: u64, a: int) -> spec_fn(int) -> bool {
    |t: int|
        bits::mem(bb, t) && attacks::pairs(a, t) && (!bits::mem(updated, t) || t > a)
}

/// The colour of the pawn on `a`.
pub open spec fn color_at(black: u64, a: int) -> Color {
    if bits::mem(black, a) {
        Color::Black
    } else {
        Color::White
    }
}

pub open spec fn changed_rec(updated: u64, white: u64, black: u64) -> spec_fn(int) -> Seq<Pair> {
    |a: int|
        bits::flat(
            board::word_of(new_partners(black, updated, a)),
            partner_rec(color_at(black, a), a, Color::Black),
        ) + bits::flat(
            board::word_of(new_partners(white, updated, a)),
            partner_rec(color_at(black, a), a, Color::White),
        )
}

/// The pairs of the pawns `white` and `black` that have a changed member.
pub open spec fn changed_pairs(updated: u64, white: u64, black: u64) -> Seq<Pair> {
    bits::flat(updated, changed_rec(updated, white, black))
}

/// The pawns that are new in the second of two pairs of words.
pub open spec fn fresh(w0: u64, b0: u64, w1: u64, b1: u64) -> u64 {
    (w1 & !w0) | (b1 & !b0)
}

/// Which pawns are new.
pub proof fn lemma_fresh(w0: u64, b0: u64, w1: u64, b1: u64)
    ensures
        forall|t: int| #[trigger]
            bits::mem(fresh(w0, b0, w1, b1), t) == ((bits::mem(w1, t) && !bits::mem(w0, t)) || (
            bits::mem(b1, t) && !bits::mem(b0, t))),
{
    assert forall|t: int| #[trigger]
        bits::mem(fresh(w0, b0, w1, b1), t) == ((bits::mem(w1, t) && !bits::mem(w0, t)) || (
        bits::mem(b1, t) && !bits::mem(b0, t))) by {
        bits::mem_or(w1 & !w0, b1 & !b0, t);
        bits::mem_and(w1, !w0, t);
        bits::mem_and(b1, !b0, t);
        bits::mem_not(w0, t);
        bits::mem_not(b0, t);
    }
}

/// Appends the pairs that have a changed member.
#[verifier::spinoff_prover]
fn append_generated(
    perspective: Color,
    ksq: usize,
    updated: Bitboard,
    white: Bitboard,
    black: Bitboard,
    out: &mut IndexList,
)
    requires
        ksq < 64,
        pawn_ranks(white),
        pawn_ranks(black),
        old(out)@.len() <= 256,
        forall|t: int| #[trigger] bits::mem(updated, t) ==> bits::mem(white, t) || bits::mem(black, t),
    ensures
        final(out)@ == bits::capped(
            old(out)@ + numbered(
                perspective,
                ksq as int,
                changed_pairs(updated, white, black),
            ),
            256,
        ),
        final(out)@.len() <= 256,
{
    let ghost k = ksq as int;
    let ghost rec = changed_rec(updated, white, black);
    let ghost start = out@;
    let all: Bitboard = white | black;
    let unchanged: Bitboard = all & !updated;
    proof {
        assert forall|t: int| #[trigger] bits::mem(unchanged, t) == ((bits::mem(white, t)
            || bits::mem(black, t)) && !bits::mem(updated, t)) by {
            bits::mem_and(all, !updated, t);
            bits::mem_or(white, black, t);
            bits::mem_not(updated, t);
        }
    }
    let mut u: Bitboard = updated;
    while u != 0
        invariant
            ksq < 64,
            k == ksq,
            rec == changed_rec(updated, white, black),
            pawn_ranks(white),
            pawn_ranks(black),
            out@.len() <= 256,
            forall|t: int| #[trigger]
                bits::mem(updated, t) ==> bits::mem(white, t) || bits::mem(black, t),
            forall|t: int| #[trigger]
                bits::mem(unchanged, t) == ((bits::mem(white, t) || bits::mem(black, t))
                    && !bits::mem(updated, t)),
            forall|t: int| #[trigger] bits::mem(u, t) ==> bits::mem(updated, t),
            forall|t: int, v: int|
                bits::mem(updated, t) && !bits::mem(u, t) && #[trigger] bits::mem(u, v)
                    && #[trigger] bits::mem(updated, t) ==> t < v,
            bits::capped(
                out@ + numbered(perspective, k, bits::flat(u, rec)),
                256,
            ) == bits::capped(start + numbered(perspective, k, bits::flat(updated, rec)), 256),
        decreases u,
    {
        let ghost u0 = u;
        let ghost l0 = out@;
        proof {
            bits::lemma_lsb(u);
        }
        let a: usize = pop_lsb(&mut u);
        let band: Bitboard = pawn_pair_bb(a);
        let free: Bitboard = unchanged | u;
        let mask: Bitboard = band & free;
        let color: Color = if bits::contains(black, a) {
            Color::Black
        } else {
            Color::White
        };
        let pb: Bitboard = black & mask;
        let pw: Bitboard = white & mask;
        proof {
            assert(bits::mem(updated, a as int));
            assert forall|t: int| #[trigger] bits::mem(pb, t) == new_partners(
                black,
                updated,
                a as int,
            )(t) by {
                bits::mem_and(black, mask, t);
                bits::mem_and(band, free, t);
                bits::mem_or(unchanged, u, t);
                if bits::mem(updated, t) && t > a && !bits::mem(u0, t) {
                    assert(bits::mem(u0, a as int));
                }
            }
            assert forall|t: int| #[trigger] bits::mem(pw, t) == new_partners(
                white,
                updated,
                a as int,
            )(t) by {
                bits::mem_and(white, mask, t);
                bits::mem_and(band, free, t);
                bits::mem_or(unchanged, u, t);
                if bits::mem(updated, t) && t > a && !bits::mem(u0, t) {
                    assert(bits::mem(u0, a as int));
                }
            }
            board::lemma_word_of(pb, new_partners(black, updated, a as int));
            board::lemma_word_of(pw, new_partners(white, updated, a as int));
        }
        append_partners(perspective, ksq, color, a, Color::Black, pb, out);
        append_partners(perspective, ksq, color, a, Color::White, pw, out);
        proof {
            let p1 = bits::flat(pb, partner_rec(color, a as int, Color::Black));
            let p2 = bits::flat(pw, partner_rec(color, a as int, Color::White));
            lemma_chain(perspective, k, l0, p1, p2);
            lemma_chain(perspective, k, l0, p1 + p2, bits::flat(u, rec));
            assert(bits::flat(u0, rec) =~= (p1 + p2) + bits::flat(u, rec));
        }
    }
    assert(out@ + numbered(perspective, k, bits::flat(0u64, rec)) =~= out@);
}

/// Appends the pairs that a move ended and made.
pub fn append_changed_indices(
    perspective: Color,
    ksq: usize,
    diff: &DirtyPawnPairs,
    removed: &mut IndexList,
    added: &mut IndexList,
)
    requires
        ksq < 64,
        pawn_ranks(diff.before@[0]),
        pawn_ranks(diff.before@[1]),
        pawn_ranks(diff.after@[0]),
        pawn_ranks(diff.after@[1]),
    ensures
        final(added)@ == bits::capped(
            old(added)@ + numbered(
                perspective,
                ksq as int,
                changed_pairs(
                    fresh(diff.before@[0], diff.before@[1], diff.after@[0], diff.after@[1]),
                    diff.after@[0],
                    diff.after@[1],
                ),
            ),
            256,
        ),
        final(removed)@ == bits::capped(
            old(removed)@ + numbered(
                perspective,
                ksq as int,
                changed_pairs(
                    fresh(diff.after@[0], diff.after@[1], diff.before@[0], diff.before@[1]),
                    diff.before@[0],
                    diff.before@[1],
                ),
            ),
            256,
        ),
{
    let n: usize = removed.size();
    let k: usize = added.size();
    let w0: Bitboard = diff.before[0];
    let b0: Bitboard = diff.before[1];
    let w1: Bitboard = diff.after[0];
    let b1: Bitboard = diff.after[1];
    let made: Bitboard = (w1 & !w0) | (b1 & !b0);
    let ended: Bitboard = (w0 & !w1) | (b0 & !b1);
    proof {
        assert forall|t: int| #[trigger] bits::mem(made, t) implies bits::mem(w1, t) || bits::mem(
            b1,
            t,
        ) by {
            bits::mem_or(w1 & !w0, b1 & !b0, t);
            bits::mem_and(w1, !w0, t);
            bits::mem_and(b1, !b0, t);
        }
        assert forall|t: int| #[trigger] bits::mem(ended, t) implies bits::mem(w0, t) || bits::mem(
            b0,
            t,
        ) by {
            bits::mem_or(w0 & !w1, b0 & !b1, t);
            bits::mem_and(w0, !w1, t);
            bits::mem_and(b0, !b1, t);
        }
    }
    append_generated(perspective, ksq, made, w1, b1, added);
    append_generated(perspective, ksq, ended, w0, b0, removed);
}

/// The own pawns are numbered before the enemy's, each side's from the second rank on as the side
/// that looks sees it.
pub proof fn law_own_pawns_first(perspective: Color, s: int, t: int, ksq: int)
    requires
        0 <= ksq < 64,
        8 <= s < t <= 55,
        s % 8 == t % 8,
    ensures
        ({
            let own = seen_id(perspective, perspective, s, ksq);
            let ahead = seen_id(perspective, perspective, t, ksq);
            let theirs = seen_id(perspective, perspective.opposite(), s, ksq);
            &&& 0 <= own < 48
            &&& theirs == own + 48
            &&& perspective == Color::White ==> ahead - own == t - s
            &&& perspective == Color::Black ==> own - ahead == t - s
        }),
{
    reveal(seen_id);
    let a = full_threats::seen_square(perspective, s, ksq);
    let b = full_threats::seen_square(perspective, t, ksq);
    assert(s == 8 * (s / 8) + s % 8 && t == 8 * (t / 8) + t % 8);
    assert(1 <= s / 8 <= 6 && 1 <= t / 8 <= 6);
    assert(8 <= a <= 55);
    if perspective == Color::White {
        assert(b - a == t - s);
    } else {
        assert(a - b == t - s);
    }
}

} // verus!
