//! The board turned over with the colours swapped: each side sees on it what
//! the other side sees on the board as it was.
use vstd::prelude::*;
use crate::arith;
use crate::bits;
use crate::nnue::accumulator::Accumulator;
use crate::nnue::accumulator;
use crate::nnue::balance;
use crate::nnue::board;
use crate::nnue::features::{full_threats, half_ka_v2_hm, pp_3wide, tiling};
use crate::nnue::features;
use crate::nnue::geometry;
use crate::nnue::incremental;
use crate::nnue::network::{FeatureTransformer, Network};
use crate::nnue::room;
use crate::nnue::types::Color;
use crate::nnue::types;
use crate::nnue;
use crate::sums;

verus! {

// --- the flipped board -----------------------------------------------------------------------

/// The square on the other side of the board.
pub open spec fn across(s: int) -> int {
    features::oriented(s, false, true)
}

/// The piece with the other colour; nothing stays nothing.
pub open spec fn swapped(v: u8) -> u8 {
    if v == 0 {
        0
    } else {
        features::recolored(v as int) as u8
    }
}

/// The board turned over with the colours swapped.
pub open spec fn flipped(sq: Seq<u8>) -> Seq<u8> {
    Seq::new(64, |s: int| swapped(sq[across(s)]))
}

proof fn lemma_across(s: int)
    requires
        0 <= s < 64,
    ensures
        0 <= across(s) < 64,
        across(across(s)) == s,
        across(s) % 8 == s % 8,
        across(s) / 8 == 7 - s / 8,
        8 <= s <= 55 <==> 8 <= across(s) <= 55,
        across(s) == 56 - 8 * (s / 8) + s % 8,
{
}

/// Flipping twice gives the board back.
pub proof fn law_flip_twice(sq: Seq<u8>)
    requires
        board::valid_squares(sq),
    ensures
        board::valid_squares(flipped(sq)),
        flipped(flipped(sq)) == sq,
{
    assert forall|s: int| 0 <= s < 64 implies #[trigger] flipped(sq)[s] == 0 || types::is_piece(
        flipped(sq)[s] as int,
    ) by {
        lemma_across(s);
        assert(sq[across(s)] == 0 || types::is_piece(sq[across(s)] as int));
    }
    assert forall|s: int| 0 <= s < 64 implies #[trigger] flipped(flipped(sq))[s] == sq[s] by {
        lemma_across(s);
        assert(sq[s] == 0 || types::is_piece(sq[s] as int));
    }
    assert(flipped(flipped(sq)) =~= sq);
}

proof fn lemma_flipped_at(sq: Seq<u8>, s: int)
    requires
        board::valid_squares(sq),
        0 <= s < 64,
    ensures
        flipped(sq)[across(s)] == swapped(sq[s]),
        flipped(sq)[across(s)] as int % 8 == sq[s] as int % 8,
        sq[s] == 0 || types::is_piece(sq[s] as int),
{
    lemma_across(s);
}

// --- sums over changed lists --------------------------------------------------------------------

/// Counting in a list after a change that can be undone.
proof fn lemma_map_counts<T>(l: Seq<T>, f: spec_fn(T) -> T, q: T)
    requires
        forall|i: int| 0 <= i < l.len() ==> (f(#[trigger] l[i]) == q <==> l[i] == f(q)),
    ensures
        sums::total(l.map_values(f), sums::is(q)) == sums::total(l, sums::is(f(q))),
    decreases l.len(),
{
    if l.len() > 0 {
        let r = l.drop_last();
        assert forall|i: int| 0 <= i < r.len() implies (f(#[trigger] r[i]) == q <==> r[i] == f(
            q,
        )) by {
            assert(r[i] == l[i]);
        }
        lemma_map_counts(r, f, q);
        assert(l.map_values(f).drop_last() =~= r.map_values(f));
        assert(l[l.len() - 1] == l.last());
    }
}

/// A changed list weighs by `w` what the list weighs by `v`.
proof fn lemma_map_total<T>(
    l: Seq<T>,
    f: spec_fn(T) -> T,
    w: spec_fn(T) -> int,
    v: spec_fn(T) -> int,
)
    requires
        forall|i: int| 0 <= i < l.len() ==> w(f(#[trigger] l[i])) == v(l[i]),
    ensures
        sums::total(l.map_values(f), w) == sums::total(l, v),
    decreases l.len(),
{
    if l.len() > 0 {
        let r = l.drop_last();
        assert forall|i: int| 0 <= i < r.len() implies w(f(#[trigger] r[i])) == v(r[i]) by {
            assert(r[i] == l[i]);
        }
        lemma_map_total(r, f, w, v);
        assert(l.map_values(f).drop_last() =~= r.map_values(f));
        assert(l[l.len() - 1] == l.last());
    }
}

proof fn lemma_len(l: Seq<u16>)
    ensures
        sums::total(l, |i: u16| 1int) == l.len(),
    decreases l.len(),
{
    if l.len() > 0 {
        lemma_len(l.drop_last());
    }
}

// --- attacks --------------------------------------------------------------------------------------

/// The attack on the flipped board.
pub open spec fn threat_across(t: types::Threat) -> types::Threat {
    types::Threat {
        pc: features::recolored(t.pc),
        threatened_pc: features::recolored(t.threatened_pc),
        pc_sq: across(t.pc_sq),
        threatened_sq: across(t.threatened_sq),
    }
}

/// An attack between pieces on squares of the board.
spec fn proper_threat(t: types::Threat) -> bool {
    &&& types::is_piece(t.pc) && types::is_piece(t.threatened_pc)
    &&& 0 <= t.pc_sq < 64 && 0 <= t.threatened_sq < 64
}

proof fn lemma_between_across(a: int, x: int, b: int)
    requires
        0 <= a < 64,
        0 <= b < 64,
        0 <= x < 64,
    ensures
        geometry::between(across(a), across(x), across(b)) == geometry::between(a, x, b),
{
    lemma_across(a);
    lemma_across(b);
    lemma_across(x);
}

proof fn lemma_open_across(sq: Seq<u8>, a: int, b: int)
    requires
        board::valid_squares(sq),
        0 <= a < 64,
        0 <= b < 64,
        board::open_line(sq, a, b),
    ensures
        board::open_line(flipped(sq), across(a), across(b)),
{
    assert forall|x: int| #[trigger]
        geometry::between(across(a), x, across(b)) implies flipped(sq)[x] == 0 by {
        lemma_across(x);
        lemma_between_across(a, across(x), b);
        assert(sq[across(x)] == 0);
    }
}

proof fn lemma_hits_across(sq: Seq<u8>, a: int, b: int)
    requires
        board::valid_squares(sq),
        0 <= a < 64,
        0 <= b < 64,
        types::is_piece(sq[a] as int),
        board::hits(sq, sq[a] as int, a, b),
    ensures
        board::hits(flipped(sq), flipped(sq)[across(a)] as int, across(a), across(b)),
{
    lemma_flipped_at(sq, a);
    lemma_across(a);
    lemma_across(b);
    tiling::lemma_turned(a, b, false, true);
    let pc = sq[a] as int;
    assert(features::recolored(pc) / 8 == 1 - pc / 8);
    if 3 <= pc % 8 <= 5 {
        lemma_open_across(sq, a, b);
    }
}

proof fn lemma_stands_across(sq: Seq<u8>, t: types::Threat)
    requires
        board::valid_squares(sq),
        balance::stands(sq, t),
    ensures
        proper_threat(t),
        balance::stands(flipped(sq), threat_across(t)),
{
    lemma_flipped_at(sq, t.pc_sq);
    lemma_flipped_at(sq, t.threatened_sq);
    lemma_across(t.pc_sq);
    lemma_across(t.threatened_sq);
    lemma_hits_across(sq, t.pc_sq, t.threatened_sq);
}

proof fn lemma_threat_twice(t: types::Threat)
    requires
        proper_threat(t),
    ensures
        threat_across(threat_across(t)) == t,
        proper_threat(threat_across(t)),
{
    lemma_across(t.pc_sq);
    lemma_across(t.threatened_sq);
}

/// Every listed attack stands.
proof fn lemma_listed_stands(sq: Seq<u8>, i: int)
    requires
        board::valid_squares(sq),
        0 <= i < full_threats::active_threats(sq).len(),
    ensures
        balance::stands(sq, full_threats::active_threats(sq)[i]),
{
    let l = full_threats::active_threats(sq);
    sums::lemma_occurs(l, l[i]);
    balance::law_active_threats(sq, l[i]);
}

/// The attacks of the flipped board are the attacks of the board, flipped.
proof fn lemma_threats_across(
    sq: Seq<u8>,
    w: spec_fn(types::Threat) -> int,
    v: spec_fn(types::Threat) -> int,
)
    requires
        board::valid_squares(sq),
        forall|t: types::Threat| #[trigger] balance::stands(sq, t) ==> w(threat_across(t)) == v(t),
    ensures
        sums::total(full_threats::active_threats(flipped(sq)), w) == sums::total(
            full_threats::active_threats(sq),
            v,
        ),
{
    let f = |t: types::Threat| threat_across(t);
    let l = full_threats::active_threats(sq);
    let m = full_threats::active_threats(flipped(sq));
    law_flip_twice(sq);
    assert forall|i: int| 0 <= i < l.len() implies w(f(#[trigger] l[i])) == v(l[i]) by {
        lemma_listed_stands(sq, i);
    }
    lemma_map_total(l, f, w, v);
    assert forall|q: types::Threat| #[trigger]
        sums::total(m, sums::is(q)) == sums::total(l.map_values(f), sums::is(q)) by {
        balance::law_active_threats(flipped(sq), q);
        balance::law_active_threats(sq, f(q));
        if proper_threat(q) {
            lemma_threat_twice(q);
            assert forall|i: int| 0 <= i < l.len() implies (f(#[trigger] l[i]) == q <==> l[i] == f(
                q,
            )) by {
                lemma_listed_stands(sq, i);
                lemma_stands_across(sq, l[i]);
                lemma_threat_twice(l[i]);
            }
            lemma_map_counts(l, f, q);
            if balance::stands(sq, f(q)) {
                lemma_stands_across(sq, f(q));
            }
            if balance::stands(flipped(sq), q) {
                lemma_stands_across(flipped(sq), q);
            }
        } else {
            if balance::stands(flipped(sq), q) {
                lemma_stands_across(flipped(sq), q);
            }
            sums::lemma_occurs(l.map_values(f), q);
            assert forall|i: int| 0 <= i < l.len() implies l.map_values(f)[i] != q by {
                lemma_listed_stands(sq, i);
                lemma_stands_across(sq, l[i]);
                lemma_threat_twice(l[i]);
            }
        }
    }
    sums::lemma_same_counts(m, l.map_values(f), w);
}

// --- pairs of pawns ----------------------------------------------------------------------------

/// The pair on the flipped board.
pub open spec fn pair_across(p: pp_3wide::Pair) -> pp_3wide::Pair {
    pp_3wide::pair(p.ca.opposite(), across(p.a), p.cb.opposite(), across(p.b))
}

/// Two pawns on ranks 2 to 7, the one on the lower square first.
spec fn proper_pair(p: pp_3wide::Pair) -> bool {
    8 <= p.a < p.b <= 55
}

proof fn lemma_pair_twice(p: pp_3wide::Pair)
    requires
        proper_pair(p),
    ensures
        pair_across(pair_across(p)) == p,
        proper_pair(pair_across(p)),
{
    lemma_across(p.a);
    lemma_across(p.b);
}

/// The pawns of a board.
spec fn pawns(sq: Seq<u8>, c: Color) -> u64 {
    pp_3wide::pawn_word(sq, c.index())
}

proof fn lemma_pawns(sq: Seq<u8>, c: Color, s: int)
    ensures
        bits::mem(pawns(sq, c), s) == (0 <= s < 64 && sq[s] == 8 * c.index() + 1),
{
    board::lemma_word_exists(full_threats::holding(sq, 8 * c.index() + 1));
}

proof fn lemma_pawns_across(sq: Seq<u8>, c: Color, s: int)
    requires
        board::valid_squares(sq),
        0 <= s < 64,
    ensures
        bits::mem(pawns(flipped(sq), c.opposite()), across(s)) == bits::mem(pawns(sq, c), s),
{
    lemma_pawns(sq, c, s);
    lemma_pawns(flipped(sq), c.opposite(), across(s));
    lemma_flipped_at(sq, s);
    lemma_across(s);
}

/// The pawns stand on ranks 2 to 7.
spec fn pawns_inside(sq: Seq<u8>) -> bool {
    pp_3wide::pawn_ranks(pp_3wide::pawn_word(sq, 0)) && pp_3wide::pawn_ranks(
        pp_3wide::pawn_word(sq, 1),
    )
}

proof fn lemma_pawn_words(sq: Seq<u8>)
    requires
        pawns_inside(sq),
    ensures
        balance::pawn_words(pp_3wide::pawn_word(sq, 0), pp_3wide::pawn_word(sq, 1)),
{
    assert forall|s: int|
        !(#[trigger] bits::mem(pp_3wide::pawn_word(sq, 0), s) && bits::mem(
            pp_3wide::pawn_word(sq, 1),
            s,
        )) by {
        lemma_pawns(sq, Color::White, s);
        lemma_pawns(sq, Color::Black, s);
    }
}

proof fn lemma_pawns_inside(sq: Seq<u8>)
    requires
        board::valid_squares(sq),
        pawns_inside(sq),
    ensures
        pawns_inside(flipped(sq)),
{
    assert forall|s: int| #[trigger]
        bits::mem(pp_3wide::pawn_word(flipped(sq), 0), s) implies 8 <= s <= 55 by {
        lemma_pawns(flipped(sq), Color::White, s);
        lemma_across(s);
        lemma_pawns_across(sq, Color::Black, across(s));
    }
    assert forall|s: int| #[trigger]
        bits::mem(pp_3wide::pawn_word(flipped(sq), 1), s) implies 8 <= s <= 55 by {
        lemma_pawns(flipped(sq), Color::Black, s);
        lemma_across(s);
        lemma_pawns_across(sq, Color::White, across(s));
    }
}

/// The pair stands on the board.
spec fn pair_stands(sq: Seq<u8>, p: pp_3wide::Pair) -> bool {
    balance::paired(pp_3wide::pawn_word(sq, 0), pp_3wide::pawn_word(sq, 1), p)
}

proof fn lemma_pair_across(sq: Seq<u8>, p: pp_3wide::Pair)
    requires
        board::valid_squares(sq),
        pawns_inside(sq),
        pair_stands(sq, p),
    ensures
        proper_pair(p),
        pair_stands(flipped(sq), pair_across(p)),
{
    assert(bits::mem(pawns(sq, p.ca), p.a));
    assert(bits::mem(pawns(sq, p.cb), p.b));
    lemma_pawns(sq, p.ca, p.a);
    lemma_pawns(sq, p.cb, p.b);
    lemma_across(p.a);
    lemma_across(p.b);
    lemma_pawns_across(sq, p.ca, p.a);
    lemma_pawns_across(sq, p.cb, p.b);
    let q = pair_across(p);
    assert(bits::mem(pawns(flipped(sq), q.ca), q.a));
    assert(bits::mem(pawns(flipped(sq), q.cb), q.b));
}

/// The pairs of a board.
spec fn listed_pairs(sq: Seq<u8>) -> Seq<pp_3wide::Pair> {
    pp_3wide::active_pairs(pp_3wide::pawn_word(sq, 0), pp_3wide::pawn_word(sq, 1))
}

proof fn lemma_listed_pair(sq: Seq<u8>, i: int)
    requires
        pawns_inside(sq),
        0 <= i < listed_pairs(sq).len(),
    ensures
        pair_stands(sq, listed_pairs(sq)[i]),
{
    let l = listed_pairs(sq);
    lemma_pawn_words(sq);
    sums::lemma_occurs(l, l[i]);
    balance::law_active_pairs(pp_3wide::pawn_word(sq, 0), pp_3wide::pawn_word(sq, 1), l[i]);
}

/// The pairs of the flipped board are the pairs of the board, flipped.
proof fn lemma_pairs_across(
    sq: Seq<u8>,
    w: spec_fn(pp_3wide::Pair) -> int,
    v: spec_fn(pp_3wide::Pair) -> int,
)
    requires
        board::valid_squares(sq),
        pawns_inside(sq),
        forall|p: pp_3wide::Pair| #[trigger] pair_stands(sq, p) ==> w(pair_across(p)) == v(p),
    ensures
        sums::total(listed_pairs(flipped(sq)), w) == sums::total(listed_pairs(sq), v),
{
    let f = |p: pp_3wide::Pair| pair_across(p);
    let l = listed_pairs(sq);
    let m = listed_pairs(flipped(sq));
    law_flip_twice(sq);
    lemma_pawns_inside(sq);
    lemma_pawn_words(sq);
    lemma_pawn_words(flipped(sq));
    assert forall|i: int| 0 <= i < l.len() implies w(f(#[trigger] l[i])) == v(l[i]) by {
        lemma_listed_pair(sq, i);
    }
    lemma_map_total(l, f, w, v);
    assert forall|q: pp_3wide::Pair| #[trigger]
        sums::total(m, sums::is(q)) == sums::total(l.map_values(f), sums::is(q)) by {
        balance::law_active_pairs(
            pp_3wide::pawn_word(flipped(sq), 0),
            pp_3wide::pawn_word(flipped(sq), 1),
            q,
        );
        balance::law_active_pairs(pp_3wide::pawn_word(sq, 0), pp_3wide::pawn_word(sq, 1), f(q));
        if proper_pair(q) {
            lemma_pair_twice(q);
            assert forall|i: int| 0 <= i < l.len() implies (f(#[trigger] l[i]) == q <==> l[i] == f(
                q,
            )) by {
                lemma_listed_pair(sq, i);
                lemma_pair_across(sq, l[i]);
                lemma_pair_twice(l[i]);
            }
            lemma_map_counts(l, f, q);
            if pair_stands(sq, f(q)) {
                lemma_pair_across(sq, f(q));
            }
            if pair_stands(flipped(sq), q) {
                lemma_pair_across(flipped(sq), q);
            }
        } else {
            if pair_stands(flipped(sq), q) {
                lemma_pair_across(flipped(sq), q);
            }
            sums::lemma_occurs(l.map_values(f), q);
            assert forall|i: int| 0 <= i < l.len() implies l.map_values(f)[i] != q by {
                lemma_listed_pair(sq, i);
                lemma_pair_across(sq, l[i]);
                lemma_pair_twice(l[i]);
            }
        }
    }
    sums::lemma_same_counts(m, l.map_values(f), w);
}

// --- features -----------------------------------------------------------------------------------

proof fn lemma_piece_index(perspective: Color, s: int, pc: int, ksq: int)
    requires
        0 <= s < 64,
        0 <= ksq < 64,
        types::is_piece(pc),
    ensures
        half_ka_v2_hm::index(perspective.opposite(), across(s), features::recolored(pc), across(ksq))
            == half_ka_v2_hm::index(perspective, s, pc, ksq),
{
    lemma_across(s);
    lemma_across(ksq);
    match perspective {
        Color::Black => {
            half_ka_v2_hm::law_black_mirrors_white(s, pc, ksq);
        },
        Color::White => {
            half_ka_v2_hm::law_black_mirrors_white(
                across(s),
                features::recolored(pc),
                across(ksq),
            );
        },
    }
}

proof fn lemma_threat_index(perspective: Color, t: types::Threat, ksq: int)
    requires
        0 <= ksq < 64,
        proper_threat(t),
    ensures
        full_threats::feature(perspective.opposite(), across(ksq), threat_across(t))
            == full_threats::feature(perspective, ksq, t),
{
    let u = threat_across(t);
    lemma_threat_twice(t);
    lemma_across(ksq);
    match perspective {
        Color::Black => {
            tiling::law_black_threats_mirror(t.pc, t.pc_sq, t.threatened_sq, t.threatened_pc, ksq);
        },
        Color::White => {
            tiling::law_black_threats_mirror(
                u.pc,
                u.pc_sq,
                u.threatened_sq,
                u.threatened_pc,
                across(ksq),
            );
        },
    }
}

/// What Black sees of a pair of pawns is what White sees of it on the board
/// turned over with the colours swapped.
pub proof fn law_pair_mirrors(
    perspective: Color,
    color: Color,
    from: int,
    to: int,
    paired_color: Color,
    ksq: int,
)
    requires
        8 <= from <= 55,
        8 <= to <= 55,
        0 <= ksq < 64,
    ensures
        pp_3wide::index(
            perspective.opposite(),
            color.opposite(),
            across(from),
            across(to),
            paired_color.opposite(),
            across(ksq),
        ) == pp_3wide::index(perspective, color, from, to, paired_color, ksq),
{
    reveal(pp_3wide::seen_id);
    lemma_across(from);
    lemma_across(to);
    lemma_across(ksq);
}

proof fn lemma_pair_number(perspective: Color, p: pp_3wide::Pair, ksq: int)
    requires
        0 <= ksq < 64,
        proper_pair(p),
    ensures
        pp_3wide::number(perspective.opposite(), across(ksq))(pair_across(p)) == pp_3wide::number(
            perspective,
            ksq,
        )(p),
{
    lemma_across(p.a);
    lemma_across(p.b);
    law_pair_mirrors(perspective, p.ca, p.a, p.b, p.cb, ksq);
}

// --- sums ------------------------------------------------------------------------------------------

/// The features of the pieces of the flipped board, as the other side sees
/// them, weigh what those of the board weigh.
proof fn lemma_pieces_across(
    sq: Seq<u8>,
    perspective: Color,
    ksq: int,
    w: spec_fn(u16) -> int,
)
    requires
        board::valid_squares(sq),
        0 <= ksq < 64,
    ensures
        sums::total(
            half_ka_v2_hm::active(perspective.opposite(), flipped(sq), across(ksq)),
            w,
        ) == sums::total(half_ka_v2_hm::active(perspective, sq, ksq), w),
{
    let other = perspective.opposite();
    balance::lemma_pieces_weigh(other, across(ksq), w, flipped(sq));
    balance::lemma_pieces_weigh(perspective, ksq, w, sq);
    let f = balance::square_weights(perspective, ksq, w, sq);
    let g = balance::square_weights(other, across(ksq), w, flipped(sq));
    assert forall|s: int| 0 <= s < 64 implies #[trigger] f(s) == g(56 - 8 * (s / 8) + s % 8) by {
        lemma_across(s);
        lemma_flipped_at(sq, s);
        if sq[s] != 0 {
            lemma_piece_index(perspective, s, sq[s] as int, ksq);
        }
    }
    sums::lemma_ranged_upside(f, g);
}

/// The features of attacks and pairs of the flipped board, as the other side
/// sees them, weigh what those of the board weigh.
proof fn lemma_others_across(sq: Seq<u8>, perspective: Color, ksq: int, w: spec_fn(u16) -> int)
    requires
        board::valid_squares(sq),
        pawns_inside(sq),
        0 <= ksq < 64,
    ensures
        sums::total(
            incremental::all_others(flipped(sq), perspective.opposite(), across(ksq)),
            w,
        ) == sums::total(incremental::all_others(sq, perspective, ksq), w),
{
    let other = perspective.opposite();
    let k = across(ksq);
    let ts = full_threats::active_threats(sq);
    let us = full_threats::active_threats(flipped(sq));
    let ps = listed_pairs(sq);
    let qs = listed_pairs(flipped(sq));
    sums::lemma_total_add(
        full_threats::kept(perspective, ksq, ts),
        pp_3wide::numbered(perspective, ksq, ps),
        w,
    );
    sums::lemma_total_add(
        full_threats::kept(other, k, us),
        pp_3wide::numbered(other, k, qs),
        w,
    );
    incremental::lemma_kept(perspective, ksq, ts, w);
    incremental::lemma_kept(other, k, us, w);
    incremental::lemma_numbered(perspective, ksq, ps, w);
    incremental::lemma_numbered(other, k, qs, w);
    let tw = incremental::threat_weight(other, k, w);
    let tv = incremental::threat_weight(perspective, ksq, w);
    assert forall|t: types::Threat| #[trigger] balance::stands(sq, t) implies tw(threat_across(t))
        == tv(t) by {
        lemma_stands_across(sq, t);
        lemma_threat_index(perspective, t, ksq);
    }
    lemma_threats_across(sq, tw, tv);
    let pw = incremental::pair_weight(other, k, w);
    let pv = incremental::pair_weight(perspective, ksq, w);
    assert forall|p: pp_3wide::Pair| #[trigger] pair_stands(sq, p) implies pw(pair_across(p))
        == pv(p) by {
        lemma_pair_across(sq, p);
        lemma_pair_number(perspective, p, ksq);
    }
    lemma_pairs_across(sq, pw, pv);
}

/// The king of a colour, the only one on the board.
pub open spec fn one_king(sq: Seq<u8>, c: int) -> bool {
    let k = board::king_of(sq, c);
    &&& 0 <= k < 64
    &&& sq[k] == 8 * c + 6
    &&& forall|s: int| 0 <= s < 64 && #[trigger] sq[s] == 8 * c + 6 ==> s == k
}

proof fn lemma_king_across(sq: Seq<u8>, c: Color)
    requires
        board::valid_squares(sq),
        one_king(sq, c.index()),
    ensures
        board::king_of(flipped(sq), c.opposite().index()) == across(board::king_of(sq, c.index())),
{
    let k = board::king_of(sq, c.index());
    let d = c.opposite().index();
    lemma_across(k);
    lemma_flipped_at(sq, k);
    assert forall|s: int| 0 <= s < 64 && #[trigger] flipped(sq)[s] == 8 * d + 6 implies s == across(
        k,
    ) by {
        lemma_across(s);
        lemma_flipped_at(sq, across(s));
        assert(sq[across(s)] == 8 * c.index() + 6);
    }
    board::lemma_king_of(flipped(sq), d, across(k));
}

/// Each side's sums on the flipped board are the other side's sums on the board
/// as it was.
#[verifier::spinoff_prover]
pub proof fn law_flip_swaps_sums(
    ft: &FeatureTransformer,
    sq: Seq<u8>,
    perspective: Color,
    a: Accumulator,
    b: Accumulator,
)
    requires
        board::valid_squares(sq),
        one_king(sq, perspective.index()),
        accumulator::countable(sq, perspective),
        room::peopled(sq),
        accumulator::refreshed(ft, a, perspective, sq),
        accumulator::refreshed(ft, b, perspective.opposite(), flipped(sq)),
    ensures
        a.accumulation@[perspective.index()]@ == b.accumulation@[perspective.opposite().index()]@,
        a.psqt@[perspective.index()]@ == b.psqt@[perspective.opposite().index()]@,
{
    let other = perspective.opposite();
    let ksq = board::king_of(sq, perspective.index());
    let k = across(ksq);
    let next = flipped(sq);
    lemma_king_across(sq, perspective);
    room::law_features_fit(sq, perspective);
    let one = |i: u16| 1int;
    let pieces0 = half_ka_v2_hm::active(perspective, sq, ksq);
    let pieces1 = half_ka_v2_hm::active(other, next, k);
    let others0 = incremental::all_others(sq, perspective, ksq);
    let others1 = incremental::all_others(next, other, k);
    lemma_pieces_across(sq, perspective, ksq, one);
    lemma_others_across(sq, perspective, ksq, one);
    lemma_len(pieces0);
    lemma_len(pieces1);
    lemma_len(others0);
    lemma_len(others1);
    assert(accumulator::psq_active(sq, perspective) == pieces0);
    assert(accumulator::psq_active(next, other) == pieces1);
    assert(accumulator::other_active(sq, perspective) == others0);
    assert(accumulator::other_active(next, other) == others1);
    let p = perspective.index();
    let q = other.index();
    assert forall|j: int| 0 <= j < 1024 implies a.accumulation@[p]@[j] == b.accumulation@[q]@[j] by {
        lemma_weights_across(ft, sq, perspective, ksq, j);
    }
    assert forall|j: int| 0 <= j < 8 implies a.psqt@[p]@[j] == b.psqt@[q]@[j] by {
        lemma_weights_across(ft, sq, perspective, ksq, j);
    }
    assert(a.accumulation@[p]@ =~= b.accumulation@[q]@);
    assert(a.psqt@[p]@ =~= b.psqt@[q]@);
}

proof fn lemma_weights_across(
    ft: &FeatureTransformer,
    sq: Seq<u8>,
    perspective: Color,
    ksq: int,
    j: int,
)
    requires
        board::valid_squares(sq),
        pawns_inside(sq),
        0 <= ksq < 64,
    ensures
        ({
            let other = perspective.opposite();
            let k = across(ksq);
            let pieces0 = half_ka_v2_hm::active(perspective, sq, ksq);
            let pieces1 = half_ka_v2_hm::active(other, flipped(sq), k);
            let others0 = incremental::all_others(sq, perspective, ksq);
            let others1 = incremental::all_others(flipped(sq), other, k);
            &&& accumulator::psq_sum(ft, pieces0, j) == accumulator::psq_sum(ft, pieces1, j)
            &&& accumulator::other_sum(ft, others0, j) == accumulator::other_sum(ft, others1, j)
            &&& accumulator::psqt_sum(ft, pieces0, j) == accumulator::psqt_sum(ft, pieces1, j)
            &&& accumulator::share_sum(ft, others0, j) == accumulator::share_sum(ft, others1, j)
        }),
{
    let other = perspective.opposite();
    let k = across(ksq);
    incremental::lemma_sums(ft, half_ka_v2_hm::active(perspective, sq, ksq), j);
    incremental::lemma_sums(ft, half_ka_v2_hm::active(other, flipped(sq), k), j);
    incremental::lemma_sums(ft, incremental::all_others(sq, perspective, ksq), j);
    incremental::lemma_sums(ft, incremental::all_others(flipped(sq), other, k), j);
    lemma_pieces_across(sq, perspective, ksq, incremental::psq_weight(ft, j));
    lemma_pieces_across(sq, perspective, ksq, incremental::psqt_weight(ft, j));
    lemma_others_across(sq, perspective, ksq, incremental::other_weight(ft, j));
    lemma_others_across(sq, perspective, ksq, incremental::share_weight(ft, j));
}

// --- the score ----------------------------------------------------------------------------------

proof fn lemma_tally_across(sq: Seq<u8>, p: spec_fn(u8) -> bool, q: spec_fn(u8) -> bool)
    requires
        board::valid_squares(sq),
        forall|s: int| 0 <= s < 64 ==> q(swapped(#[trigger] sq[s])) == p(sq[s]),
    ensures
        board::tally(flipped(sq), q) == board::tally(sq, p),
{
    let a = board::where_piece(sq, p);
    let b = board::where_piece(flipped(sq), q);
    let f = |s: int| across(s);
    board::lemma_tally(sq, p, 0, 0);
    assert forall|x: int, y: int| a.contains(x) && a.contains(y) && #[trigger] f(x)
        == #[trigger] f(y) implies x == y by {
        lemma_across(x);
        lemma_across(y);
    }
    assert(a.map(f) =~= b) by {
        assert forall|s: int| b.contains(s) implies #[trigger] a.map(f).contains(s) by {
            lemma_across(s);
            lemma_flipped_at(sq, across(s));
            assert(q(swapped(sq[across(s)])) == p(sq[across(s)]));
            assert(a.contains(across(s)));
            assert(f(across(s)) == s);
        }
        assert forall|s: int| #[trigger] a.map(f).contains(s) implies b.contains(s) by {
            let x = choose|x: int| a.contains(x) && f(x) == s;
            lemma_across(x);
            lemma_flipped_at(sq, x);
            assert(q(swapped(sq[x])) == p(sq[x]));
        }
    }
    vstd::set_lib::lemma_map_size(a, b, f);
}

proof fn lemma_count_across(sq: Seq<u8>, pc: int)
    requires
        board::valid_squares(sq),
        types::is_piece(pc),
    ensures
        board::count_of(flipped(sq), features::recolored(pc)) == board::count_of(sq, pc),
{
    let p = board::is_code(pc);
    let q = board::is_code(features::recolored(pc));
    assert forall|s: int| 0 <= s < 64 implies q(swapped(#[trigger] sq[s])) == p(sq[s]) by {
        assert(sq[s] == 0 || types::is_piece(sq[s] as int));
    }
    lemma_tally_across(sq, p, q);
}

/// The facts that a score depends on stay the same, but for the side to move.
proof fn lemma_meta_across(sq: Seq<u8>, stm: Color, rule50: u32)
    requires
        board::valid_squares(sq),
    ensures
        nnue::meta_of(flipped(sq), stm.opposite(), rule50) == (nnue::EvalMeta {
            stm: stm.opposite(),
            ..nnue::meta_of(sq, stm, rule50)
        }),
{
    let any = |v: u8| v != 0;
    let pawn = |v: u8| v == 1 || v == 9;
    assert forall|s: int| 0 <= s < 64 implies any(swapped(#[trigger] sq[s])) == any(sq[s]) && pawn(
        swapped(sq[s]),
    ) == pawn(sq[s]) by {
        assert(sq[s] == 0 || types::is_piece(sq[s] as int));
    }
    lemma_tally_across(sq, any, any);
    lemma_tally_across(sq, pawn, pawn);
    lemma_count_across(sq, 2);
    lemma_count_across(sq, 3);
    lemma_count_across(sq, 4);
    lemma_count_across(sq, 5);
    lemma_count_across(sq, 10);
    lemma_count_across(sq, 11);
    lemma_count_across(sq, 12);
    lemma_count_across(sq, 13);
}

/// Turning the board over, swapping the colours and passing the turn changes
/// neither the outputs of a network nor the score: both speak for the side to
/// move.
pub proof fn law_flip_keeps_the_score(
    net: &Network,
    sq: Seq<u8>,
    stm: Color,
    rule50: u32,
    a: Accumulator,
    b: Accumulator,
)
    requires
        board::valid_squares(sq),
        one_king(sq, 0),
        one_king(sq, 1),
        accumulator::countable(sq, Color::White),
        accumulator::countable(sq, Color::Black),
        room::peopled(sq),
        accumulator::refreshed(&net.transformer(), a, Color::White, sq),
        accumulator::refreshed(&net.transformer(), a, Color::Black, sq),
        accumulator::refreshed(&net.transformer(), b, Color::White, flipped(sq)),
        accumulator::refreshed(&net.transformer(), b, Color::Black, flipped(sq)),
    ensures
        ({
            let here = nnue::meta_of(sq, stm, rule50);
            let there = nnue::meta_of(flipped(sq), stm.opposite(), rule50);
            let out = accumulator::outputs(
                net,
                &a,
                here.stm,
                nnue::bucket_of(here.piece_count as int),
            );
            &&& out == accumulator::outputs(
                net,
                &b,
                there.stm,
                nnue::bucket_of(there.piece_count as int),
            )
            &&& nnue::blended(out, here) == nnue::blended(out, there)
        }),
{
    let ft = net.transformer();
    law_flip_swaps_sums(&ft, sq, Color::White, a, b);
    law_flip_swaps_sums(&ft, sq, Color::Black, a, b);
    lemma_meta_across(sq, stm, rule50);
}

/// On one board, passing the turn negates the piece-square output, unless the
/// difference of the two sums is the one number of its width that has no
/// negative.
pub proof fn law_turn_negates_psqt(net: &Network, acc: Accumulator, stm: Color, bucket: int)
    requires
        0 <= bucket < 8,
        arith::wrap32(
            acc.psqt@[stm.index()]@[bucket] - acc.psqt@[stm.opposite().index()]@[bucket],
        ) != i32::MIN,
    ensures
        accumulator::outputs(net, &acc, stm.opposite(), bucket).psqt == -accumulator::outputs(
            net,
            &acc,
            stm,
            bucket,
        ).psqt,
{
    let d = acc.psqt@[stm.index()]@[bucket] - acc.psqt@[stm.opposite().index()]@[bucket];
    assert(arith::wrap32(-d) == -arith::wrap32(d));
}

} // verus!
