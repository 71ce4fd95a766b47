//! What changes an evaluation, and by how much: one piece more, and the phase of the game.
use vstd::prelude::*;
use crate::arith;
use crate::bits;
use crate::board::{rules, Placement};
use crate::evaluation;
use crate::evaluation::activity;
use crate::evaluation::evaluator;
use crate::evaluation::evaluator::EvalParts;
use crate::evaluation::king;
use crate::evaluation::material;
use crate::evaluation::mobility;
use crate::evaluation::params::EvalParams;
use crate::evaluation::passed_pawns;
use crate::evaluation::passed_pawns::PassedInfo;
use crate::evaluation::pawns;
use crate::evaluation::pawns::PawnInfo;
use crate::evaluation::phase;
use crate::evaluation::pieces;
use crate::evaluation::threats;
use crate::evaluation::Score;
use crate::nnue::types::Color;
use crate::sums;
use crate::types::Role;

verus! {

// --- one piece more ---------------------------------------------------------------------------

/// The board `d` is the board `b` with one piece more, on the empty square `s`.
pub open spec fn put_on(b: Placement, d: Placement, c: Color, role: Role, s: int) -> bool {
    &&& 0 <= s < 64
    &&& !bits::mem(b.white, s) && !bits::mem(b.black, s)
    &&& forall|r: Role| !bits::mem(#[trigger] b.kind(r), s)
    &&& forall|t: int| #[trigger] bits::mem(d.side(c), t) == (bits::mem(b.side(c), t) || t == s)
    &&& d.side(c.opposite()) == b.side(c.opposite())
    &&& forall|t: int| #[trigger] bits::mem(d.kind(role), t) == (bits::mem(b.kind(role), t) || t == s)
    &&& forall|r: Role| r != role ==> #[trigger] d.kind(r) == b.kind(r)
}

/// The pieces of a kind with one piece more.
proof fn lemma_put_on(b: Placement, d: Placement, c: Color, role: Role, s: int, k: Color, r: Role)
    requires
        put_on(b, d, c, role, s),
    ensures
        k == c && r == role ==> (forall|t: int| #[trigger]
            bits::mem(evaluation::word(d, k, r), t) == (bits::mem(evaluation::word(b, k, r), t) || t
                == s)) && !bits::mem(evaluation::word(b, k, r), s) && bits::ones(
            d.kind(r) & d.side(k),
        ) == bits::ones(b.kind(r) & b.side(k)) + 1,
        !(k == c && r == role) ==> evaluation::word(d, k, r) == evaluation::word(b, k, r),
{
    broadcast use bits::group_mem;

    let v = evaluation::word(b, k, r);
    let w = evaluation::word(d, k, r);
    assert(!bits::mem(b.kind(r), s) && !bits::mem(b.side(k), s));
    if k == c && r == role {
        assert forall|t: int| #[trigger] bits::mem(w, t) == (bits::mem(v, t) || t == s) by {
            assert(bits::mem(d.side(k), t) == (bits::mem(b.side(k), t) || t == s));
        }
        bits::lemma_ones_insert(v, w, s);
    } else {
        assert forall|t: int| 0 <= t < 64 implies bits::mem(w, t) == #[trigger] bits::mem(v, t) by {
            if k == c {
                assert(d.kind(r) == b.kind(r));
                assert(bits::mem(d.side(k), t) == (bits::mem(b.side(k), t) || t == s));
            } else {
                assert(d.side(k) == b.side(k));
                if r == role {
                    assert(bits::mem(d.kind(r), t) == (bits::mem(b.kind(r), t) || t == s));
                } else {
                    assert(d.kind(r) == b.kind(r));
                }
            }
        }
        bits::lemma_ext(v, w);
    }
}

/// The value of a kind of piece among the parameters.
pub open spec fn price(p: EvalParams, role: Role) -> int {
    if role == Role::Pawn {
        p.piece_values@[0] as int
    } else if role == Role::Knight {
        p.piece_values@[1] as int
    } else if role == Role::Bishop {
        p.piece_values@[2] as int
    } else if role == Role::Rook {
        p.piece_values@[3] as int
    } else if role == Role::Queen {
        p.piece_values@[4] as int
    } else {
        0
    }
}

/// One piece more raises the material of its side by its value in both phases, and a second
/// bishop by the value of the pair as well. The other side's material stays as it is.
pub proof fn law_a_piece_adds_its_value(
    b: Placement,
    d: Placement,
    c: Color,
    role: Role,
    s: int,
    p: EvalParams,
    f: int,
)
    requires
        put_on(b, d, c, role, s),
        0 <= f < 2,
    ensures
        ({
            let pair = if role == Role::Bishop && bits::ones(b.bishops & b.side(c)) == 1 {
                p.bishop_pair@[f] as int
            } else {
                0
            };
            let more = price(p, role) + pair;
            &&& material::half(d, c, p, f) == material::half(b, c, p, f) + more
            &&& material::half(d, c.opposite(), p, f) == material::half(b, c.opposite(), p, f)
            &&& c == Color::White ==> evaluator::term(d, p, 0, f) == evaluator::term(b, p, 0, f)
                + more
            &&& c == Color::Black ==> evaluator::term(d, p, 0, f) == evaluator::term(b, p, 0, f)
                - more
        }),
{
    lemma_kind_counts(b, d, c, role, s, c, Role::Pawn, p);
    lemma_kind_counts(b, d, c, role, s, c, Role::Knight, p);
    lemma_kind_counts(b, d, c, role, s, c, Role::Bishop, p);
    lemma_kind_counts(b, d, c, role, s, c, Role::Rook, p);
    lemma_kind_counts(b, d, c, role, s, c, Role::Queen, p);
    let e = c.opposite();
    lemma_kind_counts(b, d, c, role, s, e, Role::Pawn, p);
    lemma_kind_counts(b, d, c, role, s, e, Role::Knight, p);
    lemma_kind_counts(b, d, c, role, s, e, Role::Bishop, p);
    lemma_kind_counts(b, d, c, role, s, e, Role::Rook, p);
    lemma_kind_counts(b, d, c, role, s, e, Role::Queen, p);
    assert(evaluation::number(b, c, Role::Bishop) == bits::ones(b.bishops & b.side(c)));
    assert(evaluation::number(d, c, Role::Bishop) == bits::ones(d.bishops & d.side(c)));
}

proof fn lemma_kind_counts(
    b: Placement,
    d: Placement,
    c: Color,
    role: Role,
    s: int,
    k: Color,
    r: Role,
    p: EvalParams,
)
    requires
        put_on(b, d, c, role, s),
        r != Role::King,
    ensures
        material::worth(d, k, r, p) == material::worth(b, k, r, p) + (if k == c && r == role {
            price(p, r)
        } else {
            0
        }),
        evaluation::number(d, k, r) == evaluation::number(b, k, r) + (if k == c && r == role {
            1int
        } else {
            0
        }),
{
    lemma_put_on(b, d, c, role, s, k, r);
    let n = evaluation::number(b, k, r);
    let v = price(p, r);
    assert((n + 1) * v == n * v + v) by (nonlinear_arith);
}

/// A side without pieces besides its king has no material.
pub proof fn law_a_bare_king_has_no_material(b: Placement, c: Color, p: EvalParams, f: int)
    requires
        forall|r: Role| r != Role::King ==> bits::ones(#[trigger] b.kind(r) & b.side(c)) == 0,
    ensures
        material::half(b, c, p, f) == 0,
{
    assert(bits::ones(b.kind(Role::Pawn) & b.side(c)) == 0);
    assert(bits::ones(b.kind(Role::Knight) & b.side(c)) == 0);
    assert(bits::ones(b.kind(Role::Bishop) & b.side(c)) == 0);
    assert(bits::ones(b.kind(Role::Rook) & b.side(c)) == 0);
    assert(bits::ones(b.kind(Role::Queen) & b.side(c)) == 0);
    let v = price(p, Role::Pawn);
    let w = price(p, Role::Knight);
    let x = price(p, Role::Bishop);
    let y = price(p, Role::Rook);
    let z = price(p, Role::Queen);
    assert(0 * v == 0 && 0 * w == 0 && 0 * x == 0 && 0 * y == 0 && 0 * z == 0) by (nonlinear_arith);
}

/// One piece more adds what its square is worth to its kind, as its side sees the board: Black
/// looks at it from the eighth rank.
pub proof fn law_a_piece_adds_its_square(
    b: Placement,
    d: Placement,
    c: Color,
    role: Role,
    s: int,
    p: EvalParams,
    f: int,
)
    requires
        put_on(b, d, c, role, s),
        0 <= f < 2,
    ensures
        ({
            let seen = if c == Color::White {
                s
            } else {
                8 * (7 - s / 8) + s % 8
            };
            let more = p.pst.tables@[role.code_spec() as int]@[f]@[seen] as int;
            &&& pieces::half(d, c, p, f) == pieces::half(b, c, p, f) + more
            &&& pieces::half(d, c.opposite(), p, f) == pieces::half(b, c.opposite(), p, f)
            &&& c == Color::White ==> evaluator::term(d, p, 1, f) == evaluator::term(b, p, 1, f)
                + more
            &&& c == Color::Black ==> evaluator::term(d, p, 1, f) == evaluator::term(b, p, 1, f)
                - more
        }),
{
    lemma_kind_squares(b, d, c, role, s, c, Role::Pawn, p, f);
    lemma_kind_squares(b, d, c, role, s, c, Role::Knight, p, f);
    lemma_kind_squares(b, d, c, role, s, c, Role::Bishop, p, f);
    lemma_kind_squares(b, d, c, role, s, c, Role::Rook, p, f);
    lemma_kind_squares(b, d, c, role, s, c, Role::Queen, p, f);
    lemma_kind_squares(b, d, c, role, s, c, Role::King, p, f);
    let e = c.opposite();
    lemma_kind_squares(b, d, c, role, s, e, Role::Pawn, p, f);
    lemma_kind_squares(b, d, c, role, s, e, Role::Knight, p, f);
    lemma_kind_squares(b, d, c, role, s, e, Role::Bishop, p, f);
    lemma_kind_squares(b, d, c, role, s, e, Role::Rook, p, f);
    lemma_kind_squares(b, d, c, role, s, e, Role::Queen, p, f);
    lemma_kind_squares(b, d, c, role, s, e, Role::King, p, f);
}

proof fn lemma_kind_squares(
    b: Placement,
    d: Placement,
    c: Color,
    role: Role,
    s: int,
    k: Color,
    r: Role,
    p: EvalParams,
    f: int,
)
    requires
        put_on(b, d, c, role, s),
    ensures
        pieces::part(d, k, r, p, f) == pieces::part(b, k, r, p, f) + (if k == c && r == role {
            pieces::worth(k, r, p, f)(s)
        } else {
            0
        }),
{
    lemma_put_on(b, d, c, role, s, k, r);
    let v = evaluation::word(b, k, r);
    let w = evaluation::word(d, k, r);
    let g = pieces::worth(k, r, p, f);
    if k == c && r == role {
        assert forall|t: int| 0 <= t < 64 && t != s implies #[trigger] sums::masked(w, g)(t)
            == sums::masked(v, g)(t) by {
            assert(bits::mem(w, t) == bits::mem(v, t));
        }
        sums::lemma_ranged_point(64, sums::masked(w, g), sums::masked(v, g), s);
        assert(bits::mem(w, s) && !bits::mem(v, s));
    }
}

// --- the phase ----------------------------------------------------------------------------------

/// One piece more takes the game back towards the opening by the weight of its kind, until it
/// has begun; pawns and kings have no weight.
pub proof fn law_a_piece_sets_the_phase(
    b: Placement,
    d: Placement,
    c: Color,
    role: Role,
    s: int,
    p: EvalParams,
)
    requires
        put_on(b, d, c, role, s),
        0 <= p.phase_knight,
        0 <= p.phase_bishop,
        0 <= p.phase_rook,
        0 <= p.phase_queen,
        0 <= p.phase_max,
    ensures
        ({
            let weight = if role == Role::Knight {
                p.phase_knight as int
            } else if role == Role::Bishop {
                p.phase_bishop as int
            } else if role == Role::Rook {
                p.phase_rook as int
            } else if role == Role::Queen {
                p.phase_queen as int
            } else {
                0
            };
            phase::phase_of(d, p) == (if phase::phase_of(b, p) + weight < p.phase_max {
                phase::phase_of(b, p) + weight
            } else {
                p.phase_max as int
            })
        }),
        0 <= phase::phase_of(b, p) <= p.phase_max,
{
    lemma_kind_phase(b, d, c, role, s, Role::Queen, p.phase_queen as int);
    lemma_kind_phase(b, d, c, role, s, Role::Rook, p.phase_rook as int);
    lemma_kind_phase(b, d, c, role, s, Role::Bishop, p.phase_bishop as int);
    lemma_kind_phase(b, d, c, role, s, Role::Knight, p.phase_knight as int);
}

proof fn lemma_kind_phase(
    b: Placement,
    d: Placement,
    c: Color,
    role: Role,
    s: int,
    r: Role,
    x: int,
)
    requires
        put_on(b, d, c, role, s),
        0 <= x,
    ensures
        phase::number_of(d, r) * x == phase::number_of(b, r) * x + (if r == role {
            x
        } else {
            0
        }),
        0 <= phase::number_of(b, r) * x,
{
    lemma_put_on(b, d, c, role, s, Color::White, r);
    lemma_put_on(b, d, c, role, s, Color::Black, r);
    let n = phase::number_of(b, r);
    assert((n + 1) * x == n * x + x && 0 <= n * x) by (nonlinear_arith)
        requires
            0 <= n,
            0 <= x,
    ;
}

/// Without pieces the game is in its endgame.
pub proof fn law_a_bare_board_is_an_endgame(b: Placement, p: EvalParams)
    requires
        0 <= p.phase_max,
        bits::ones(b.knights & b.white) == 0 && bits::ones(b.knights & b.black) == 0,
        bits::ones(b.bishops & b.white) == 0 && bits::ones(b.bishops & b.black) == 0,
        bits::ones(b.rooks & b.white) == 0 && bits::ones(b.rooks & b.black) == 0,
        bits::ones(b.queens & b.white) == 0 && bits::ones(b.queens & b.black) == 0,
    ensures
        phase::phase_of(b, p) == 0,
{
    let v = p.phase_queen as int;
    let w = p.phase_rook as int;
    let x = p.phase_bishop as int;
    let y = p.phase_knight as int;
    assert(0 * v == 0 && 0 * w == 0 && 0 * x == 0 && 0 * y == 0) by (nonlinear_arith);
}

// --- the blend ------------------------------------------------------------------------------------

/// A blend grows with both of its values, and lies between them; the nearer the opening, the
/// nearer it is to the midgame value.
pub proof fn law_blends_lie_between(
    mg: int,
    eg: int,
    mg2: int,
    eg2: int,
    phase: int,
    later: int,
    max: int,
)
    requires
        1 <= max,
        0 <= later <= phase <= max,
        mg <= mg2,
        eg <= eg2,
    ensures
        evaluation::blend_at(mg, eg, phase, max) <= evaluation::blend_at(mg2, eg2, phase, max),
        mg <= eg ==> mg <= evaluation::blend_at(mg, eg, phase, max) <= eg,
        eg <= mg ==> eg <= evaluation::blend_at(mg, eg, phase, max) <= mg,
        mg <= eg ==> evaluation::blend_at(mg, eg, phase, max) <= evaluation::blend_at(
            mg,
            eg,
            later,
            max,
        ),
        eg <= mg ==> evaluation::blend_at(mg, eg, later, max) <= evaluation::blend_at(
            mg,
            eg,
            phase,
            max,
        ),
{
    let x = mg * phase + eg * (max - phase);
    let y = mg2 * phase + eg2 * (max - phase);
    let z = mg * later + eg * (max - later);
    assert(x <= y) by (nonlinear_arith)
        requires
            x == mg * phase + eg * (max - phase),
            y == mg2 * phase + eg2 * (max - phase),
            mg <= mg2,
            eg <= eg2,
            0 <= phase <= max,
    ;
    lemma_trunc_grows(x, y, max);
    evaluation::law_blend_ends(mg, eg, max);
    assert(mg * max + eg * (max - max) == mg * max && mg * 0 + eg * (max - 0) == eg * max)
        by (nonlinear_arith);
    if mg <= eg {
        assert(mg * max <= x <= z <= eg * max) by (nonlinear_arith)
            requires
                x == mg * phase + eg * (max - phase),
                z == mg * later + eg * (max - later),
                mg <= eg,
                0 <= later <= phase <= max,
        ;
        lemma_trunc_grows(mg * max, x, max);
        lemma_trunc_grows(x, z, max);
        lemma_trunc_grows(x, eg * max, max);
    }
    if eg <= mg {
        assert(eg * max <= z <= x <= mg * max) by (nonlinear_arith)
            requires
                x == mg * phase + eg * (max - phase),
                z == mg * later + eg * (max - later),
                eg <= mg,
                0 <= later <= phase <= max,
        ;
        lemma_trunc_grows(eg * max, x, max);
        lemma_trunc_grows(z, x, max);
        lemma_trunc_grows(x, mg * max, max);
    }
}

proof fn lemma_trunc_grows(a: int, b: int, m: int)
    requires
        a <= b,
        1 <= m,
    ensures
        arith::trunc_div(a, m) <= arith::trunc_div(b, m),
{
    if a >= 0 {
        vstd::arithmetic::div_mod::lemma_div_is_ordered(a, b, m);
    } else if b < 0 {
        vstd::arithmetic::div_mod::lemma_div_is_ordered(-b, -a, m);
    } else {
        vstd::arithmetic::div_mod::lemma_div_pos_is_pos(-a, m);
        vstd::arithmetic::div_mod::lemma_div_pos_is_pos(b, m);
    }
}

// --- the whole ------------------------------------------------------------------------------------

/// The total of an evaluation is the sum of its nine parts, in both phases.
pub proof fn law_totals_are_sums(r: EvalParts, b: Placement, p: EvalParams, turn: Color)
    requires
        evaluator::reported(r, b, p, turn),
    ensures
        r.total_mg == r.material.mg + r.pst.mg + r.pawn.mg + r.mobility.mg + r.king.mg + r.pieces.mg
            + r.passed.mg + r.space.mg + r.threats.mg,
        r.total_eg == r.material.eg + r.pst.eg + r.pawn.eg + r.mobility.eg + r.king.eg + r.pieces.eg
            + r.passed.eg + r.space.eg + r.threats.eg,
{
    reveal_with_fuel(evaluator::terms, 10);
    assert(r.component(0) == r.material && r.component(1) == r.pst && r.component(2) == r.pawn);
    assert(r.component(3) == r.mobility && r.component(4) == r.king && r.component(5) == r.pieces);
    assert(r.component(6) == r.passed && r.component(7) == r.space && r.component(8) == r.threats);
    assert(r.component(0).mg == evaluator::term(b, p, 0, 0));
    assert(r.component(1).mg == evaluator::term(b, p, 1, 0));
    assert(r.component(2).mg == evaluator::term(b, p, 2, 0));
    assert(r.component(3).mg == evaluator::term(b, p, 3, 0));
    assert(r.component(4).mg == evaluator::term(b, p, 4, 0));
    assert(r.component(5).mg == evaluator::term(b, p, 5, 0));
    assert(r.component(6).mg == evaluator::term(b, p, 6, 0));
    assert(r.component(7).mg == evaluator::term(b, p, 7, 0));
    assert(r.component(8).mg == evaluator::term(b, p, 8, 0));
}

/// Every part but space is what White has of it less what Black has: of material, squares, pawn
/// structure, mobility, king safety, activity, passed pawns, and threats with what rooks make of
/// their files. No part is left out, and none counts under another's name.
pub proof fn law_parts_are_differences(
    r: EvalParts,
    b: Placement,
    p: EvalParams,
    turn: Color,
    info: PawnInfo,
    passed: PassedInfo,
    f: int,
)
    requires
        evaluator::reported(r, b, p, turn),
        info.describes(b),
        passed.describes(info),
        0 <= f < 2,
    ensures
        ({
            let w = Color::White;
            let k = Color::Black;
            let phase = r.phase as int;
            let of = |s: Score| if f == 0 {
                s.mg as int
            } else {
                s.eg as int
            };
            &&& of(r.material) == material::half(b, w, p, f) - material::half(b, k, p, f)
            &&& of(r.pst) == pieces::half(b, w, p, f) - pieces::half(b, k, p, f)
            &&& of(r.pawn) == pawns::half(info, w, p, f) - pawns::half(info, k, p, f)
            &&& of(r.mobility) == mobility::half(b, info, w, p, f) - mobility::half(
                b,
                info,
                k,
                p,
                f,
            )
            &&& of(r.king) == king::half(b, info, w, p, f) - king::half(b, info, k, p, f)
            &&& of(r.pieces) == activity::half(b, info, passed, w, phase, p, f) - activity::half(
                b,
                info,
                passed,
                k,
                phase,
                p,
                f,
            )
            &&& of(r.passed) == passed_pawns::half(b, info, passed, w, p, f) - passed_pawns::half(
                b,
                info,
                passed,
                k,
                p,
                f,
            )
            &&& of(r.space) == threats::space(
                info,
                if f == 0 {
                    p.space_mg as int
                } else {
                    p.space_eg as int
                },
            )
            &&& of(r.threats) == threats::half(b, info, w, p, f) + threats::rook_half(
                b,
                info,
                w,
                p,
                f,
            ) - threats::half(b, info, k, p, f) - threats::rook_half(b, info, k, p, f)
        }),
{
    evaluator::lemma_pawns_on(b, info);
    evaluator::lemma_passed_on(b, passed);
    assert(r.component(0) == r.material && r.component(1) == r.pst && r.component(2) == r.pawn);
    assert(r.component(3) == r.mobility && r.component(4) == r.king && r.component(5) == r.pieces);
    assert(r.component(6) == r.passed && r.component(7) == r.space && r.component(8) == r.threats);
}

/// The value of a position is between its totals, for White as it is and for Black turned
/// round; a position in which neither side can win is worth nothing. Better totals are never
/// worse for White to move, and never better for Black to move.
pub proof fn law_values_are_for_the_mover(
    r: EvalParts,
    q: EvalParts,
    b: Placement,
    d: Placement,
    p: EvalParams,
    turn: Color,
)
    requires
        1 <= p.phase_max,
        evaluator::reported(r, b, p, turn),
        evaluator::reported(q, d, p, turn),
        !rules::bare(b),
        !rules::bare(d),
        r.phase == q.phase,
        r.total_mg <= q.total_mg,
        r.total_eg <= q.total_eg,
    ensures
        turn == Color::White ==> r.final_score <= q.final_score,
        turn == Color::Black ==> r.final_score >= q.final_score,
        r.total_mg == r.total_eg && turn == Color::White ==> r.final_score == r.total_mg,
        r.total_mg == r.total_eg && turn == Color::Black ==> r.final_score == -r.total_mg,
{
    law_blends_lie_between(
        r.total_mg as int,
        r.total_eg as int,
        q.total_mg as int,
        q.total_eg as int,
        r.phase as int,
        r.phase as int,
        p.phase_max as int,
    );
}

/// What the side to move sees is the opposite of what the other side would see.
pub proof fn law_the_sides_see_opposites(value: int)
    ensures
        evaluator::scored(value, false, Color::White) == value,
        evaluator::scored(value, false, Color::Black) == -value,
        evaluator::scored(value, true, Color::White) == 0,
        evaluator::scored(value, true, Color::Black) == 0,
{
}

} // verus!
