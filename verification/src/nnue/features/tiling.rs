//! The numbers of attacks: blocks that follow on each other, one place for
//! each attack.
use vstd::prelude::*;
use crate::nnue::board;
use crate::nnue::features;
use crate::nnue::features::full_threats;
use crate::nnue::features::full_threats::{
    first, offset, place, size_of, slot, span, targets_of, DIMENSIONS,
};
use crate::nnue::features::reach;
use crate::nnue::geometry;
use crate::nnue::types::{Color, BISHOP, KING, KNIGHT, PAWN, QUEEN, ROOK};
use crate::nnue::types;

verus! {

// --- the places of one part ------------------------------------------------------------------

/// The places of the attacks from (`f`, `r`).
spec fn span_at(pc: int, f: int, r: int) -> nat {
    if pc % 8 == PAWN && !(1 <= r <= 6) {
        0
    } else {
        reach::reach_count(pc, f, r)
    }
}

/// The places of the attacks from one rank.
spec fn rank_span(pc: int, r: int) -> nat {
    span_at(pc, 0, r) + span_at(pc, 1, r) + span_at(pc, 2, r) + span_at(pc, 3, r) + span_at(
        pc,
        4,
        r,
    ) + span_at(pc, 5, r) + span_at(pc, 6, r) + span_at(pc, 7, r)
}

proof fn lemma_span(pc: int, f: int, r: int)
    requires
        0 <= pc < 16,
        0 <= f < 8,
        0 <= r < 8,
    ensures
        span(pc, 8 * r + f) == span_at(pc, f, r),
        offset(pc, 8 * r + f + 1) == offset(pc, 8 * r + f) + span_at(pc, f, r),
{
    let s = 8 * r + f;
    assert(s % 8 == f && s / 8 == r);
    reach::lemma_aim_count(pc, s);
}

proof fn lemma_rank_span(pc: int, r: int)
    requires
        0 <= pc < 16,
        0 <= r < 8,
    ensures
        offset(pc, 8 * r + 8) == offset(pc, 8 * r) + rank_span(pc, r),
{
    lemma_span(pc, 0, r);
    lemma_span(pc, 1, r);
    lemma_span(pc, 2, r);
    lemma_span(pc, 3, r);
    lemma_span(pc, 4, r);
    lemma_span(pc, 5, r);
    lemma_span(pc, 6, r);
    lemma_span(pc, 7, r);
}

/// The places of the attacks from one rank, by piece type.
spec fn rank_total(pt: int, r: int) -> nat {
    let edge = if r < 7 - r {
        r
    } else {
        7 - r
    };
    if pt == PAWN {
        if edge == 0 {
            0
        } else {
            14
        }
    } else if pt == KNIGHT {
        if edge == 0 {
            26
        } else if edge == 1 {
            38
        } else {
            52
        }
    } else if pt == BISHOP || pt == QUEEN {
        (if edge == 0 {
            56nat
        } else if edge == 1 {
            68
        } else if edge == 2 {
            76
        } else {
            80
        }) + (if pt == QUEEN {
            112nat
        } else {
            0
        })
    } else if pt == ROOK {
        112
    } else if edge == 0 {
        36
    } else {
        58
    }
}

proof fn lemma_rank_pawn(pc: int, r: int)
    requires
        types::is_piece(pc),
        pc % 8 == PAWN,
        0 <= r < 8,
    ensures
        rank_span(pc, r) == rank_total(pc % 8, r),
{
}

proof fn lemma_rank_knight(pc: int, r: int)
    requires
        pc % 8 == KNIGHT,
        0 <= r < 8,
    ensures
        rank_span(pc, r) == rank_total(pc % 8, r),
{
}

proof fn lemma_rank_diagonal(pc: int, r: int)
    requires
        pc % 8 == BISHOP || pc % 8 == QUEEN,
        0 <= r < 8,
    ensures
        rank_span(pc, r) == rank_total(pc % 8, r),
{
}

proof fn lemma_rank_straight(pc: int, r: int)
    requires
        pc % 8 == ROOK,
        0 <= r < 8,
    ensures
        rank_span(pc, r) == rank_total(pc % 8, r),
{
}

proof fn lemma_rank_king(pc: int, r: int)
    requires
        pc % 8 == KING,
        0 <= r < 8,
    ensures
        rank_span(pc, r) == rank_total(pc % 8, r),
{
}

proof fn lemma_rank(pc: int, r: int)
    requires
        types::is_piece(pc),
        0 <= r < 8,
    ensures
        offset(pc, 8 * r + 8) == offset(pc, 8 * r) + rank_total(pc % 8, r),
{
    let pt = pc % 8;
    lemma_rank_span(pc, r);
    if pt == PAWN {
        lemma_rank_pawn(pc, r);
    } else if pt == KNIGHT {
        lemma_rank_knight(pc, r);
    } else if pt == BISHOP || pt == QUEEN {
        lemma_rank_diagonal(pc, r);
    } else if pt == ROOK {
        lemma_rank_straight(pc, r);
    } else {
        lemma_rank_king(pc, r);
    }
}

/// A part of a block has just as many places as there are attacks of the piece
/// on an empty board.
pub proof fn law_parts_are_exact(pc: int)
    requires
        types::is_piece(pc),
    ensures
        offset(pc, 64) == size_of(pc % 8),
{
    lemma_rank(pc, 0);
    lemma_rank(pc, 1);
    lemma_rank(pc, 2);
    lemma_rank(pc, 3);
    lemma_rank(pc, 4);
    lemma_rank(pc, 5);
    lemma_rank(pc, 6);
    lemma_rank(pc, 7);
    assert(offset(pc, 0) == 0);
}

/// The blocks of the pieces follow on each other from 0 to the number of
/// features: White's from the pawn to the king, then Black's.
pub proof fn law_blocks_tile(pc: int)
    requires
        types::is_piece(pc),
    ensures
        first(1) == 0,
        first(14) + targets_of(6) * size_of(6) == DIMENSIONS,
        pc % 8 != 6 ==> first(pc + 1) == first(pc) + targets_of(pc % 8) * size_of(pc % 8),
        first(9) == first(6) + targets_of(6) * size_of(6),
{
}

// --- one place for each attack -----------------------------------------------------------------

/// An attack that the geometry allows and the set keeps; pawns stand on ranks
/// 2 to 7.
pub open spec fn numbered(attacker: int, from: int, to: int, attacked: int) -> bool {
    &&& types::is_piece(attacker) && types::is_piece(attacked)
    &&& geometry::on_board(from) && geometry::on_board(to)
    &&& attacker % 8 == PAWN ==> 8 <= from <= 55
    &&& reach::pseudo(attacker, from, to)
    &&& place(attacker, from, to, attacked) < DIMENSIONS
}

proof fn lemma_offset_grows(pc: int, a: int, b: int)
    requires
        0 <= a <= b,
    ensures
        offset(pc, a) <= offset(pc, b),
    decreases b - a,
{
    if a < b {
        lemma_offset_grows(pc, a, b - 1);
    }
}

/// An attack lies among the places of its square.
proof fn lemma_among(pc: int, from: int, to: int)
    requires
        types::is_piece(pc),
        geometry::on_board(from),
        geometry::on_board(to),
        pc % 8 == PAWN ==> 8 <= from <= 55,
        reach::pseudo(pc, from, to),
    ensures
        reach::aim_below(pc, from, to).len() < span(pc, from),
        offset(pc, from + 1) == offset(pc, from) + span(pc, from),
        offset(pc, from + 1) <= size_of(pc % 8),
{
    let aim = reach::aim(pc, from);
    let below = reach::aim_below(pc, from, to);
    reach::lemma_aim_count(pc, from);
    assert(below.subset_of(aim.remove(to)));
    assert(aim.contains(to));
    vstd::set_lib::lemma_len_subset(below, aim.remove(to));
    lemma_offset_grows(pc, from + 1, 64);
    law_parts_are_exact(pc);
}

/// From one square, a higher target has a higher place.
proof fn lemma_targets_differ(pc: int, from: int, t: int, u: int)
    requires
        0 <= pc < 16,
        geometry::on_board(from),
        reach::pseudo(pc, from, t),
        t < u,
    ensures
        reach::aim_below(pc, from, t).len() < reach::aim_below(pc, from, u).len(),
{
    let lower = reach::aim_below(pc, from, t);
    let upper = reach::aim_below(pc, from, u);
    reach::lemma_aim_count(pc, from);
    vstd::set_lib::lemma_len_subset(upper, reach::aim(pc, from));
    assert(upper.contains(t));
    assert(lower.subset_of(upper.remove(t)));
    vstd::set_lib::lemma_len_subset(lower, upper.remove(t));
}

/// Where in its block an attack lies: within the part of its target.
proof fn lemma_in_part(attacker: int, from: int, to: int, attacked: int)
    requires
        numbered(attacker, from, to, attacked),
    ensures
        board::may_threaten(attacker % 8, attacked % 8),
        0 <= slot(attacker % 8, attacked) < targets_of(attacker % 8),
        ({
            let k = offset(attacker, from) + reach::aim_below(attacker, from, to).len();
            &&& 0 <= k < size_of(attacker % 8)
            &&& place(attacker, from, to, attacked) == first(attacker) + slot(
                attacker % 8,
                attacked,
            ) * size_of(attacker % 8) + k
        }),
{
    lemma_among(attacker, from, to);
}

/// A number in a part of a block tells the block, the part and the place.
proof fn lemma_told_apart(a: int, x: int, k: int, b: int, y: int, l: int)
    requires
        types::is_piece(a),
        types::is_piece(b),
        0 <= x < targets_of(a % 8),
        0 <= y < targets_of(b % 8),
        0 <= k < size_of(a % 8),
        0 <= l < size_of(b % 8),
        first(a) + x * size_of(a % 8) + k == first(b) + y * size_of(b % 8) + l,
    ensures
        a == b,
        x == y,
        k == l,
{
    lemma_within_block(a, x, k);
    lemma_within_block(b, y, l);
    if a < b {
        lemma_blocks_ordered(a, b);
    } else if b < a {
        lemma_blocks_ordered(b, a);
    }
    let n = size_of(a % 8);
    assert(x == y) by (nonlinear_arith)
        requires
            x * n + k == y * n + l,
            0 <= k < n,
            0 <= l < n,
    ;
}

proof fn lemma_within_block(a: int, x: int, k: int)
    requires
        types::is_piece(a),
        0 <= x < targets_of(a % 8),
        0 <= k < size_of(a % 8),
    ensures
        0 <= x * size_of(a % 8) + k < targets_of(a % 8) * size_of(a % 8),
{
    let n = size_of(a % 8);
    let m = targets_of(a % 8);
    assert(0 <= x * n && x * n + n <= m * n) by (nonlinear_arith)
        requires
            0 <= x < m,
            0 <= n,
    ;
}

proof fn lemma_blocks_ordered(a: int, b: int)
    requires
        types::is_piece(a),
        types::is_piece(b),
        a < b,
    ensures
        first(a) + targets_of(a % 8) * size_of(a % 8) <= first(b),
{
    assert(b % 8 > a % 8 || b / 8 > a / 8);
}

/// Different targets of one attacker have different parts.
proof fn lemma_slots(pt: int, x: int, y: int)
    requires
        types::is_piece(x),
        types::is_piece(y),
        board::may_threaten(pt, x % 8),
        board::may_threaten(pt, y % 8),
        slot(pt, x) == slot(pt, y),
    ensures
        x == y,
{
}

/// Two attacks that the set keeps have one place only where they are the same
/// attack.
proof fn lemma_places_differ(
    a: int,
    from: int,
    to: int,
    x: int,
    b: int,
    f: int,
    t: int,
    y: int,
)
    requires
        numbered(a, from, to, x),
        numbered(b, f, t, y),
        place(a, from, to, x) == place(b, f, t, y),
    ensures
        a == b && from == f && to == t && x == y,
{
    lemma_in_part(a, from, to, x);
    lemma_in_part(b, f, t, y);
    let k = offset(a, from) + reach::aim_below(a, from, to).len();
    let l = offset(b, f) + reach::aim_below(b, f, t).len();
    lemma_told_apart(a, slot(a % 8, x), k as int, b, slot(b % 8, y), l as int);
    lemma_slots(a % 8, x, y);
    lemma_among(a, from, to);
    lemma_among(b, f, t);
    if from < f {
        lemma_offset_grows(a, from + 1, f);
    } else if f < from {
        lemma_offset_grows(a, f + 1, from);
    }
    if to < t {
        lemma_targets_differ(a, from, to, t);
    } else if t < to {
        lemma_targets_differ(a, from, t, to);
    }
}

/// An attack as `perspective` sees it.
proof fn lemma_seen(perspective: Color, attacker: int, from: int, to: int, ksq: int)
    requires
        types::is_piece(attacker),
        geometry::on_board(from),
        geometry::on_board(to),
        0 <= ksq < 64,
        reach::pseudo(attacker, from, to),
    ensures
        reach::pseudo(
            full_threats::seen_piece(perspective, attacker),
            full_threats::seen_square(perspective, from, ksq),
            full_threats::seen_square(perspective, to, ksq),
        ),
{
    lemma_empty(
        full_threats::seen_square(perspective, from, ksq),
        full_threats::seen_square(perspective, to, ksq),
    );
    lemma_turned(from, to, full_threats::mirrors(ksq), perspective == Color::Black);
}

proof fn lemma_empty(a: int, b: int)
    ensures
        geometry::clear(a, b, 0),
{
    assert forall|x: int| #[trigger] geometry::between(a, x, b) implies !crate::bits::mem(0, x) by {
        crate::bits::mem_zero(x);
    }
}

/// Lines and steps stay what they are when the board is mirrored and turned
/// over.
pub proof fn lemma_turned(a: int, b: int, mirror: bool, turn: bool)
    requires
        geometry::on_board(a),
        geometry::on_board(b),
    ensures
        ({
            let x = features::oriented(a, mirror, turn);
            let y = features::oriented(b, mirror, turn);
            &&& geometry::on_board(x) && geometry::on_board(y)
            &&& geometry::straight(x, y) == geometry::straight(a, b)
            &&& geometry::diagonal(x, y) == geometry::diagonal(a, b)
            &&& geometry::knight_step(x, y) == geometry::knight_step(a, b)
            &&& geometry::king_step(x, y) == geometry::king_step(a, b)
            &&& forall|c: int|
                0 <= c < 2 ==> #[trigger] geometry::pawn_step(c, a, b) == geometry::pawn_step(
                    if turn {
                        1 - c
                    } else {
                        c
                    },
                    x,
                    y,
                )
        }),
{
    let x = features::oriented(a, mirror, turn);
    let y = features::oriented(b, mirror, turn);
    assert(x % 8 == (if mirror {
        7 - a % 8
    } else {
        a % 8
    }) && x / 8 == (if turn {
        7 - a / 8
    } else {
        a / 8
    }));
    assert(y % 8 == (if mirror {
        7 - b % 8
    } else {
        b % 8
    }) && y / 8 == (if turn {
        7 - b / 8
    } else {
        b / 8
    }));
}

/// The attack of `attacker` on `from` on `attacked` on `to` is one that the
/// geometry allows and the set keeps, as `perspective` sees it with its king on
/// `ksq`; pawns stand on ranks 2 to 7.
pub open spec fn live(
    perspective: Color,
    attacker: int,
    from: int,
    to: int,
    attacked: int,
    ksq: int,
) -> bool {
    &&& types::is_piece(attacker) && types::is_piece(attacked)
    &&& geometry::on_board(from) && geometry::on_board(to)
    &&& attacker % 8 == PAWN ==> 8 <= from <= 55
    &&& reach::pseudo(attacker, from, to)
    &&& full_threats::index(perspective, attacker, from, to, attacked, ksq) < DIMENSIONS
}

/// An attack that the set keeps has its place among those of the oriented board.
proof fn lemma_live(
    perspective: Color,
    attacker: int,
    from: int,
    to: int,
    attacked: int,
    ksq: int,
)
    requires
        0 <= ksq < 64,
        live(perspective, attacker, from, to, attacked, ksq),
    ensures
        numbered(
            full_threats::seen_piece(perspective, attacker),
            full_threats::seen_square(perspective, from, ksq),
            full_threats::seen_square(perspective, to, ksq),
            full_threats::seen_piece(perspective, attacked),
        ),
{
    let mirror = full_threats::mirrors(ksq);
    let turn = perspective == Color::Black;
    lemma_seen(perspective, attacker, from, to, ksq);
    features::lemma_oriented(from, mirror, turn);
    features::lemma_oriented(to, mirror, turn);
}

/// Different attacks have different features: two attacks that the set keeps
/// share an index only where they are the same attack.
pub proof fn law_threats_differ(
    perspective: Color,
    attacker: int,
    from: int,
    to: int,
    attacked: int,
    second: int,
    f: int,
    t: int,
    target: int,
    ksq: int,
)
    requires
        0 <= ksq < 64,
        live(perspective, attacker, from, to, attacked, ksq),
        live(perspective, second, f, t, target, ksq),
    ensures
        full_threats::index(perspective, attacker, from, to, attacked, ksq) == full_threats::index(
            perspective,
            second,
            f,
            t,
            target,
            ksq,
        ) <==> attacker == second && from == f && to == t && attacked == target,
{
    lemma_live(perspective, attacker, from, to, attacked, ksq);
    lemma_live(perspective, second, f, t, target, ksq);
    let mirror = full_threats::mirrors(ksq);
    let turn = perspective == Color::Black;
    features::lemma_oriented(from, mirror, turn);
    features::lemma_oriented(to, mirror, turn);
    features::lemma_oriented(f, mirror, turn);
    features::lemma_oriented(t, mirror, turn);
    if full_threats::index(perspective, attacker, from, to, attacked, ksq) == full_threats::index(
        perspective,
        second,
        f,
        t,
        target,
        ksq,
    ) {
        lemma_places_differ(
            full_threats::seen_piece(perspective, attacker),
            full_threats::seen_square(perspective, from, ksq),
            full_threats::seen_square(perspective, to, ksq),
            full_threats::seen_piece(perspective, attacked),
            full_threats::seen_piece(perspective, second),
            full_threats::seen_square(perspective, f, ksq),
            full_threats::seen_square(perspective, t, ksq),
            full_threats::seen_piece(perspective, target),
        );
    }
}

/// Two squares have a place within their part; queens have one strictly within
/// it.
proof fn lemma_in_span(pc: int, from: int, to: int)
    requires
        types::is_piece(pc),
        geometry::on_board(from),
        geometry::on_board(to),
        from != to,
        pc % 8 == PAWN ==> 8 <= from <= 55,
    ensures
        offset(pc, from) + reach::aim_below(pc, from, to).len() <= size_of(pc % 8),
        pc % 8 == QUEEN ==> offset(pc, from) + reach::aim_below(pc, from, to).len() < size_of(QUEEN as int),
{
    let aim = reach::aim(pc, from);
    let below = reach::aim_below(pc, from, to);
    reach::lemma_aim_count(pc, from);
    assert(below.subset_of(aim));
    vstd::set_lib::lemma_len_subset(below, aim);
    lemma_offset_grows(pc, from + 1, 64);
    law_parts_are_exact(pc);
    if pc % 8 == QUEEN {
        if from == 63 {
            lemma_empty(63, 62);
            assert(reach::pseudo(pc, 63, 62));
            assert(aim.contains(62));
            assert(below.subset_of(aim.remove(62)));
            vstd::set_lib::lemma_len_subset(below, aim.remove(62));
        } else {
            lemma_offset_grows(pc, from + 1, 63);
            reach::lemma_aim_count(pc, 63);
        }
    }
}

/// Which attacks have a feature, between any two squares. Attacks that do not
/// count have none; of the two directions between pieces of one type exactly one
/// has, and all other attacks have in both.
pub proof fn law_one_of_two(
    perspective: Color,
    attacker: int,
    from: int,
    to: int,
    attacked: int,
    ksq: int,
)
    requires
        0 <= ksq < 64,
        types::is_piece(attacker),
        types::is_piece(attacked),
        geometry::on_board(from),
        geometry::on_board(to),
        from != to,
        attacker % 8 == PAWN ==> 8 <= from <= 55 && 8 <= to <= 55,
    ensures
        ({
            let forth = full_threats::index(perspective, attacker, from, to, attacked, ksq)
                < DIMENSIONS;
            let back = full_threats::index(perspective, attacker, to, from, attacked, ksq)
                < DIMENSIONS;
            if !board::may_threaten(attacker % 8, attacked % 8) {
                !forth && !back
            } else if attacker % 8 == attacked % 8 {
                forth != back
            } else {
                forth && back
            }
        }),
{
    let p = full_threats::seen_piece(perspective, attacker);
    let a = full_threats::seen_square(perspective, from, ksq);
    let b = full_threats::seen_square(perspective, to, ksq);
    let q = full_threats::seen_piece(perspective, attacked);
    let mirror = full_threats::mirrors(ksq);
    let turn = perspective == Color::Black;
    features::lemma_oriented(from, mirror, turn);
    features::lemma_oriented(to, mirror, turn);
    assert(p % 8 == attacker % 8 && q % 8 == attacked % 8);
    if board::may_threaten(attacker % 8, attacked % 8) {
        lemma_in_span(p, a, b);
        lemma_in_span(p, b, a);
        lemma_part_ends(p, slot(p % 8, q));
    }
}

/// A part ends before the last feature; only the last of Black's queens ends
/// with it.
proof fn lemma_part_ends(pc: int, x: int)
    requires
        types::is_piece(pc),
        pc % 8 != KING,
        0 <= x < targets_of(pc % 8),
    ensures
        first(pc) + x * size_of(pc % 8) + size_of(pc % 8) <= DIMENSIONS,
        pc % 8 != QUEEN ==> first(pc) + x * size_of(pc % 8) + size_of(pc % 8) < DIMENSIONS,
{
    let n = size_of(pc % 8);
    let m = targets_of(pc % 8);
    assert(x * n + n <= m * n) by (nonlinear_arith)
        requires
            0 <= x < m,
            0 <= n,
    ;
}

/// What Black sees is what White sees on the board turned over with the
/// colours swapped.
pub proof fn law_black_threats_mirror(attacker: int, from: int, to: int, attacked: int, ksq: int)
    requires
        types::is_piece(attacker),
        types::is_piece(attacked),
        geometry::on_board(from),
        geometry::on_board(to),
        0 <= ksq < 64,
    ensures
        full_threats::index(Color::Black, attacker, from, to, attacked, ksq)
            == full_threats::index(
            Color::White,
            features::recolored(attacker),
            features::oriented(from, false, true),
            features::oriented(to, false, true),
            features::recolored(attacked),
            features::oriented(ksq, false, true),
        ),
{
    let mirror = full_threats::mirrors(ksq);
    let k = features::oriented(ksq, false, true);
    assert(full_threats::mirrors(k) == mirror);
    let f = features::oriented(from, false, true);
    let t = features::oriented(to, false, true);
    assert(features::oriented(from, mirror, true) == features::oriented(f, mirror, false));
    assert(features::oriented(to, mirror, true) == features::oriented(t, mirror, false));
}

/// The attacks of the own pieces come before those of the enemy's, and among the attacks of a
/// piece those on own pieces before those on the enemy's.
pub proof fn law_own_attacks_first(
    perspective: Color,
    kind: int,
    from: int,
    to: int,
    target: int,
    ksq: int,
)
    requires
        0 <= ksq < 64,
        geometry::on_board(from),
        geometry::on_board(to),
        PAWN <= kind <= QUEEN,
        PAWN <= target <= QUEEN,
        board::may_threaten(kind, target),
        kind != target,
    ensures
        ({
            let own = 8 * perspective.index();
            let theirs = 8 * perspective.opposite().index();
            &&& kind != PAWN ==> full_threats::index(
                perspective,
                theirs + kind,
                from,
                to,
                own + target,
                ksq,
            ) == full_threats::index(perspective, own + kind, from, to, own + target, ksq) + 29904
            &&& full_threats::index(perspective, own + kind, from, to, theirs + target, ksq)
                == full_threats::index(perspective, own + kind, from, to, own + target, ksq)
                + targets_of(kind) / 2 * size_of(kind)
        }),
{
    let a = full_threats::seen_square(perspective, from, ksq);
    let b = full_threats::seen_square(perspective, to, ksq);
    if kind != PAWN {
        lemma_colourless(kind, a, b);
    }
    let h = targets_of(kind) / 2;
    let z = size_of(kind);
    let x = slot(kind, target);
    assert(slot(kind, target + 8) == x + h);
    assert((x + h) * z == x * z + h * z) by (nonlinear_arith);
}

/// A piece that is no pawn attacks the same squares whatever its colour.
proof fn lemma_colourless(kind: int, from: int, to: int)
    requires
        KNIGHT <= kind <= KING,
    ensures
        offset(kind + 8, from) == offset(kind, from),
        reach::aim_below(kind + 8, from, to) == reach::aim_below(kind, from, to),
    decreases from,
{
    assert(reach::aim(kind + 8, from - 1) =~= reach::aim(kind, from - 1));
    assert(reach::aim_below(kind + 8, from, to) =~= reach::aim_below(kind, from, to));
    if from > 0 {
        lemma_colourless(kind, from - 1, to);
    }
}

/// A side sees attacks and pairs of pawns with its own first rank below and its king on the left
/// half of the board: squares keep their distances, and are turned or mirrored at most.
pub proof fn law_kings_on_the_left(perspective: Color, s: int, ksq: int)
    requires
        0 <= s < 64,
        0 <= ksq < 64,
    ensures
        ({
            let seen = full_threats::seen_square(perspective, s, ksq);
            &&& full_threats::seen_square(perspective, ksq, ksq) % 8 < 4
            &&& ksq % 8 < 4 ==> seen % 8 == s % 8
            &&& ksq % 8 >= 4 ==> seen % 8 == 7 - s % 8
            &&& perspective == Color::White ==> seen / 8 == s / 8
            &&& perspective == Color::Black ==> seen / 8 == 7 - s / 8
        }),
{
}

} // verus!
