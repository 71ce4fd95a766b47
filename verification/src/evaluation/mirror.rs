//! Turning the board upside down and exchanging the colours turns every term
//! around.
use vstd::prelude::*;
use crate::arith;
use crate::bits;
use crate::board::rules;
use crate::board::Placement;
use crate::evaluation;
use crate::evaluation::activity;
use crate::evaluation::evaluator;
use crate::evaluation::king;
use crate::evaluation::material;
use crate::evaluation::mobility;
use crate::evaluation::params::EvalParams;
use crate::evaluation::passed_pawns;
use crate::evaluation::passed_pawns::PassedInfo;
use crate::evaluation::pawns;
use crate::evaluation::pawns::PawnInfo;
use crate::evaluation::phase;
use crate::evaluation::pieces;
use crate::evaluation::threats;
use crate::nnue::attacks;
use crate::nnue::board;
use crate::nnue::geometry;
use crate::nnue::types::Color;
use crate::sums;
use crate::types::Role;

verus! {

// --- the board upside down --------------------------------------------------------------------

/// A square of the board turned upside down.
#[verifier::opaque]
pub open spec fn up(s: int) -> int {
    56 - 8 * (s / 8) + s % 8
}

/// A set is another one turned upside down.
pub open spec fn flips(w: u64, v: u64) -> bool {
    forall|s: int| #[trigger] bits::mem(w, s) == bits::mem(v, up(s))
}

/// A board is another one turned upside down, with the colours exchanged.
pub open spec fn mirrored(a: Placement, b: Placement) -> bool {
    &&& flips(a.pawns, b.pawns)
    &&& flips(a.knights, b.knights)
    &&& flips(a.bishops, b.bishops)
    &&& flips(a.rooks, b.rooks)
    &&& flips(a.queens, b.queens)
    &&& flips(a.kings, b.kings)
    &&& flips(a.white, b.black)
    &&& flips(a.black, b.white)
}

proof fn lemma_up(s: int)
    ensures
        up(up(s)) == s,
        up(s) % 8 == s % 8,
        up(s) / 8 == 7 - s / 8,
        0 <= s < 64 <==> 0 <= up(s) < 64,
{
    reveal(up);
}

proof fn lemma_flips_back(w: u64, v: u64)
    requires
        flips(w, v),
    ensures
        flips(v, w),
{
    assert forall|s: int| #[trigger] bits::mem(v, s) == bits::mem(w, up(s)) by {
        lemma_up(s);
        assert(bits::mem(w, up(s)) == bits::mem(v, up(up(s))));
    }
}

proof fn lemma_mirrored_back(a: Placement, b: Placement)
    requires
        mirrored(a, b),
    ensures
        mirrored(b, a),
{
    lemma_flips_back(a.pawns, b.pawns);
    lemma_flips_back(a.knights, b.knights);
    lemma_flips_back(a.bishops, b.bishops);
    lemma_flips_back(a.rooks, b.rooks);
    lemma_flips_back(a.queens, b.queens);
    lemma_flips_back(a.kings, b.kings);
    lemma_flips_back(a.white, b.black);
    lemma_flips_back(a.black, b.white);
}

proof fn lemma_word(a: Placement, b: Placement, c: Color, role: Role)
    requires
        mirrored(a, b),
    ensures
        flips(evaluation::word(a, c, role), evaluation::word(b, c.opposite(), role)),
        flips(a.side(c), b.side(c.opposite())),
        flips(a.kind(role), b.kind(role)),
        flips(a.white | a.black, b.white | b.black),
{
    broadcast use bits::group_mem;

}

/// Counting squares with a property.
proof fn lemma_count(u: spec_fn(int) -> bool, v: spec_fn(int) -> bool)
    requires
        forall|s: int| 0 <= s < 64 ==> #[trigger] u(s) == v(up(s)),
    ensures
        sums::how_many(u) == sums::how_many(v),
{
    let f = sums::flagged(u);
    let g = sums::flagged(v);
    assert forall|s: int| 0 <= s < 64 implies #[trigger] f(s) == g(56 - 8 * (s / 8) + s % 8) by {
        reveal(up);
        assert(u(s) == v(up(s)));
    }
    sums::lemma_ranged_upside(f, g);
}

/// Adding up over a set.
proof fn lemma_sum(w: u64, v: u64, f: spec_fn(int) -> int, g: spec_fn(int) -> int)
    requires
        flips(w, v),
        forall|s: int| #[trigger] bits::mem(w, s) ==> f(s) == g(up(s)),
    ensures
        sums::over(w, f) == sums::over(v, g),
{
    let x = sums::masked(w, f);
    let y = sums::masked(v, g);
    assert forall|s: int| 0 <= s < 64 implies #[trigger] x(s) == y(56 - 8 * (s / 8) + s % 8) by {
        reveal(up);
        assert(bits::mem(w, s) == bits::mem(v, up(s)));
    }
    sums::lemma_ranged_upside(x, y);
}

/// The number of squares of a set.
proof fn lemma_ones(w: u64, v: u64)
    requires
        flips(w, v),
    ensures
        bits::ones(w) == bits::ones(v),
        w == 0 <==> v == 0,
{
    let u = |s: int| bits::mem(w, s);
    let x = |s: int| bits::mem(v, s);
    sums::lemma_how_many(w, u);
    sums::lemma_how_many(v, x);
    lemma_count(u, x);
    bits::lemma_nonzero(w);
    bits::lemma_nonzero(v);
    if w == 0 {
        assert forall|s: int| !bits::mem(v, s) by {
            lemma_up(s);
            assert(bits::mem(w, up(s)) == bits::mem(v, up(up(s))));
        }
    }
    if v == 0 {
        assert forall|s: int| !bits::mem(w, s) by {
            assert(bits::mem(w, s) == bits::mem(v, up(s)));
        }
    }
}

proof fn lemma_number(a: Placement, b: Placement, c: Color, role: Role)
    requires
        mirrored(a, b),
    ensures
        evaluation::number(a, c, role) == evaluation::number(b, c.opposite(), role),
{
    lemma_word(a, b, c, role);
    lemma_ones(evaluation::word(a, c, role), evaluation::word(b, c.opposite(), role));
}

// --- lines ------------------------------------------------------------------------------------

proof fn lemma_between(s: int, x: int, t: int)
    ensures
        geometry::between(s, x, t) == geometry::between(up(s), up(x), up(t)),
{
    lemma_up(s);
    lemma_up(x);
    lemma_up(t);
}

proof fn lemma_clear_one(s: int, t: int, o: u64, q: u64)
    requires
        flips(o, q),
        geometry::clear(s, t, o),
    ensures
        geometry::clear(up(s), up(t), q),
{
    assert forall|y: int| #[trigger] geometry::between(up(s), y, up(t)) implies !bits::mem(q, y) by {
        lemma_up(y);
        lemma_between(s, up(y), t);
        assert(geometry::between(s, up(y), t));
        assert(bits::mem(o, up(y)) == bits::mem(q, up(up(y))));
    }
}

proof fn lemma_clear(s: int, t: int, o: u64, q: u64)
    requires
        flips(o, q),
    ensures
        geometry::clear(s, t, o) == geometry::clear(up(s), up(t), q),
{
    lemma_up(s);
    lemma_up(t);
    lemma_flips_back(o, q);
    if geometry::clear(s, t, o) {
        lemma_clear_one(s, t, o, q);
    }
    if geometry::clear(up(s), up(t), q) {
        lemma_clear_one(up(s), up(t), q, o);
    }
}

proof fn lemma_shapes(s: int, t: int)
    ensures
        geometry::diagonal(s, t) == geometry::diagonal(up(s), up(t)),
        geometry::straight(s, t) == geometry::straight(up(s), up(t)),
        geometry::knight_step(s, t) == geometry::knight_step(up(s), up(t)),
        geometry::king_step(s, t) == geometry::king_step(up(s), up(t)),
        geometry::pawn_step(0, s, t) == geometry::pawn_step(1, up(s), up(t)),
        geometry::pawn_step(1, s, t) == geometry::pawn_step(0, up(s), up(t)),
{
    lemma_up(s);
    lemma_up(t);
}

proof fn lemma_attacks(pt: int, s: int, t: int, o: u64, q: u64)
    requires
        flips(o, q),
    ensures
        attacks::attacks(pt, s, t, o) == attacks::attacks(pt, up(s), up(t), q),
{
    lemma_clear(s, t, o, q);
    lemma_shapes(s, t);
}

proof fn lemma_aims(a: Placement, b: Placement, role: Role, s: int, t: int)
    requires
        mirrored(a, b),
    ensures
        mobility::aims(a, role, s, t) == mobility::aims(b, role, up(s), up(t)),
{
    lemma_word(a, b, Color::White, role);
    lemma_attacks(role.code_spec() as int, s, t, a.white | a.black, b.white | b.black);
}

proof fn lemma_hit_by_one(a: Placement, b: Placement, c: Color, role: Role, t: int)
    requires
        mirrored(a, b),
        mobility::hit_by(a, c, role, t),
    ensures
        mobility::hit_by(b, c.opposite(), role, up(t)),
{
    let s = choose|s: int|
        bits::mem(evaluation::word(a, c, role), s) && #[trigger] mobility::aims(a, role, s, t);
    lemma_word(a, b, c, role);
    lemma_aims(a, b, role, s, t);
    assert(bits::mem(evaluation::word(b, c.opposite(), role), up(s)));
    assert(mobility::aims(b, role, up(s), up(t)));
}

proof fn lemma_hit_by(a: Placement, b: Placement, c: Color, role: Role, t: int)
    requires
        mirrored(a, b),
    ensures
        mobility::hit_by(a, c, role, t) == mobility::hit_by(b, c.opposite(), role, up(t)),
{
    lemma_up(t);
    lemma_mirrored_back(a, b);
    if mobility::hit_by(a, c, role, t) {
        lemma_hit_by_one(a, b, c, role, t);
    }
    if mobility::hit_by(b, c.opposite(), role, up(t)) {
        lemma_hit_by_one(b, a, c.opposite(), role, up(t));
    }
}

proof fn lemma_level(c: Color, s: int)
    ensures
        evaluation::level(c.opposite(), up(s)) == evaluation::level(c, s),
        evaluation::front(c.opposite(), up(s)) == up(evaluation::front(c, s)),
        up(s) % 8 == s % 8,
        evaluation::turned(c.opposite(), up(s)) == evaluation::turned(c, s),
{
    reveal(up);
}

// --- pawns --------------------------------------------------------------------------------------

/// Every board has an account of its pawns and of its passed pawns.
proof fn lemma_accounts(b: Placement)
    ensures
        evaluator::pawns_on(b).describes(b),
        evaluator::passed_on(b).describes(evaluator::pawns_on(b)),
{
    let w = evaluation::word(b, Color::White, Role::Pawn);
    let v = evaluation::word(b, Color::Black, Role::Pawn);
    let i = PawnInfo {
        white: w,
        black: v,
        white_attacks: board::word_of(|t: int| pawns::struck(w, Color::White, t)),
        black_attacks: board::word_of(|t: int| pawns::struck(v, Color::Black, t)),
        white_files: files_of(w),
        black_files: files_of(v),
    };
    board::lemma_word_exists(|t: int| pawns::struck(w, Color::White, t));
    board::lemma_word_exists(|t: int| pawns::struck(v, Color::Black, t));
    lemma_files_of(w);
    lemma_files_of(v);
    assert(i.sound(Color::White));
    assert(i.sound(Color::Black));
    assert(i.describes(b));
    let info = evaluator::pawns_on(b);
    let x = |s: int|
        bits::mem(info.white, s) && passed_pawns::passed(info.black, Color::White, s);
    let y = |s: int|
        bits::mem(info.black, s) && passed_pawns::passed(info.white, Color::Black, s);
    board::lemma_word_exists(x);
    board::lemma_word_exists(y);
    let j = PassedInfo { white: board::word_of(x), black: board::word_of(y) };
    assert(j.sound(info, Color::White));
    assert(j.sound(info, Color::Black));
    assert(j.describes(info));
}

/// The files of a set, as a mask.
spec fn files_of(w: u64) -> u8 {
    board::word_of(|f: int| f < 8 && pawns::on_file(w, f)) as u8
}

proof fn lemma_files_of(w: u64)
    ensures
        forall|f: int| #[trigger] pawns::on(files_of(w), f) == pawns::on_file(w, f),
{
    broadcast use bits::mem_and;

    let u = |f: int| f < 8 && pawns::on_file(w, f);
    let x = board::word_of(u);
    board::lemma_word_exists(u);
    assert forall|s: int| 0 <= s < 64 implies bits::mem(x, s) == #[trigger] bits::mem(
        x & 0xff,
        s,
    ) by {
        attacks::lemma_edge_masks(s);
    }
    bits::lemma_ext(x, x & 0xff);
    assert(x & 0xff <= 0xff) by (bit_vector);
    assert forall|f: int| #[trigger] pawns::on(files_of(w), f) == pawns::on_file(w, f) by {
        assert(bits::mem(x, f) == (0 <= f < 64 && u(f)));
    }
}

/// Two accounts of pawns are those of a board and of the board turned around.
spec fn paired(i: PawnInfo, j: PawnInfo) -> bool {
    &&& flips(i.white, j.black)
    &&& flips(i.black, j.white)
    &&& flips(i.white_attacks, j.black_attacks)
    &&& flips(i.black_attacks, j.white_attacks)
    &&& forall|f: int| #[trigger] pawns::on(i.white_files, f) == pawns::on(j.black_files, f)
    &&& forall|f: int| #[trigger] pawns::on(i.black_files, f) == pawns::on(j.white_files, f)
}

proof fn lemma_struck_one(w: u64, v: u64, c: Color, t: int)
    requires
        flips(w, v),
        pawns::struck(w, c, t),
    ensures
        pawns::struck(v, c.opposite(), up(t)),
{
    let s = choose|s: int| bits::mem(w, s) && #[trigger] geometry::pawn_step(c.index(), s, t);
    lemma_shapes(s, t);
    assert(bits::mem(v, up(s)));
    assert(geometry::pawn_step(c.opposite().index(), up(s), up(t)));
}

proof fn lemma_struck(w: u64, v: u64, c: Color, t: int)
    requires
        flips(w, v),
    ensures
        pawns::struck(w, c, t) == pawns::struck(v, c.opposite(), up(t)),
{
    lemma_up(t);
    lemma_flips_back(w, v);
    if pawns::struck(w, c, t) {
        lemma_struck_one(w, v, c, t);
    }
    if pawns::struck(v, c.opposite(), up(t)) {
        lemma_struck_one(v, w, c.opposite(), up(t));
    }
}

proof fn lemma_on_file(w: u64, v: u64, f: int)
    requires
        flips(w, v),
    ensures
        pawns::on_file(w, f) == pawns::on_file(v, f),
{
    lemma_flips_back(w, v);
    if pawns::on_file(w, f) {
        let s = choose|s: int| #[trigger] bits::mem(w, s) && s % 8 == f;
        lemma_up(s);
        assert(bits::mem(v, up(s)));
    }
    if pawns::on_file(v, f) {
        let s = choose|s: int| #[trigger] bits::mem(v, s) && s % 8 == f;
        lemma_up(s);
        assert(bits::mem(w, up(s)));
    }
}

proof fn lemma_paired_side(i: PawnInfo, j: PawnInfo, c: Color)
    requires
        i.sound(c),
        j.sound(c.opposite()),
        flips(i.pawns(c), j.pawns(c.opposite())),
    ensures
        flips(i.hits(c), j.hits(c.opposite())),
        forall|f: int| #[trigger] pawns::on(i.files(c), f) == pawns::on(j.files(c.opposite()), f),
{
    assert forall|t: int| #[trigger] bits::mem(i.hits(c), t) == bits::mem(
        j.hits(c.opposite()),
        up(t),
    ) by {
        lemma_struck(i.pawns(c), j.pawns(c.opposite()), c, t);
    }
    assert forall|f: int| #[trigger] pawns::on(i.files(c), f) == pawns::on(
        j.files(c.opposite()),
        f,
    ) by {
        lemma_on_file(i.pawns(c), j.pawns(c.opposite()), f);
    }
}

/// The accounts of mirrored boards.
proof fn lemma_paired(a: Placement, b: Placement)
    requires
        mirrored(a, b),
    ensures
        paired(evaluator::pawns_on(a), evaluator::pawns_on(b)),
{
    let i = evaluator::pawns_on(a);
    let j = evaluator::pawns_on(b);
    lemma_accounts(a);
    lemma_accounts(b);
    lemma_word(a, b, Color::White, Role::Pawn);
    lemma_word(a, b, Color::Black, Role::Pawn);
    lemma_paired_side(i, j, Color::White);
    lemma_paired_side(i, j, Color::Black);
    assert forall|f: int| #[trigger] pawns::on(i.white_files, f) == pawns::on(j.black_files, f) by {
        assert(pawns::on(i.files(Color::White), f) == pawns::on(j.files(Color::Black), f));
    }
    assert forall|f: int| #[trigger] pawns::on(i.black_files, f) == pawns::on(j.white_files, f) by {
        assert(pawns::on(i.files(Color::Black), f) == pawns::on(j.files(Color::White), f));
    }
    assert(Color::White.opposite() == Color::Black && Color::Black.opposite() == Color::White);
    assert(flips(i.pawns(Color::White), j.pawns(Color::Black)));
    assert(flips(i.pawns(Color::Black), j.pawns(Color::White)));
    assert(flips(i.hits(Color::White), j.hits(Color::Black)));
    assert(flips(i.hits(Color::Black), j.hits(Color::White)));
}

/// What pairs of accounts have in common, from one side.
proof fn lemma_pair(i: PawnInfo, j: PawnInfo, c: Color)
    requires
        paired(i, j),
    ensures
        flips(i.pawns(c), j.pawns(c.opposite())),
        flips(i.hits(c), j.hits(c.opposite())),
        forall|f: int| #[trigger] pawns::on(i.files(c), f) == pawns::on(j.files(c.opposite()), f),
{
}

/// A property of pawns beside a square, from one board to the other.
proof fn lemma_neighbours_one(w: u64, v: u64, c: Color, s: int)
    requires
        flips(w, v),
    ensures
        pawns::doubled(w, s) ==> pawns::doubled(v, up(s)),
        !pawns::isolated(w, s) ==> !pawns::isolated(v, up(s)),
        pawns::connected(w, c, s) ==> pawns::connected(v, c.opposite(), up(s)),
        passed_pawns::supported(w, s) ==> passed_pawns::supported(v, up(s)),
        activity::ahead(w, c, s) ==> activity::ahead(v, c.opposite(), up(s)),
        !passed_pawns::passed(w, c, s) ==> !passed_pawns::passed(v, c.opposite(), up(s)),
{
    lemma_up(s);
    lemma_level(c, s);
    if pawns::doubled(w, s) {
        let t = choose|t: int| #[trigger] bits::mem(w, t) && t != s && t % 8 == s % 8;
        lemma_up(t);
        assert(bits::mem(v, up(t)));
    }
    if !pawns::isolated(w, s) {
        let t = choose|t: int| #[trigger] bits::mem(w, t) && evaluation::beside(s, t);
        lemma_up(t);
        assert(bits::mem(v, up(t)));
    }
    if pawns::connected(w, c, s) {
        let t = choose|t: int| #[trigger]
            bits::mem(w, t) && evaluation::beside(s, t) && (evaluation::level(c, t)
                == evaluation::level(c, s) || evaluation::level(c, t) == evaluation::level(c, s)
                - 1);
        lemma_level(c, t);
        assert(bits::mem(v, up(t)));
    }
    if passed_pawns::supported(w, s) {
        let t = choose|t: int| #[trigger]
            bits::mem(w, t) && t % 8 == s % 8 + 1 && -1 <= t / 8 - s / 8 <= 1;
        lemma_up(t);
        assert(bits::mem(v, up(t)));
    }
    if activity::ahead(w, c, s) {
        let t = choose|t: int| #[trigger]
            bits::mem(w, t) && t % 8 == s % 8 && evaluation::level(c, t) > evaluation::level(c, s);
        lemma_level(c, t);
        assert(bits::mem(v, up(t)));
    }
    if !passed_pawns::passed(w, c, s) {
        let t = choose|t: int| #[trigger]
            bits::mem(w, t) && (t % 8 == s % 8 || evaluation::beside(s, t)) && evaluation::level(
                c,
                t,
            ) > evaluation::level(c, s);
        lemma_level(c, t);
        assert(bits::mem(v, up(t)));
    }
}

proof fn lemma_neighbours(w: u64, v: u64, c: Color, s: int)
    requires
        flips(w, v),
    ensures
        pawns::doubled(w, s) == pawns::doubled(v, up(s)),
        pawns::isolated(w, s) == pawns::isolated(v, up(s)),
        pawns::connected(w, c, s) == pawns::connected(v, c.opposite(), up(s)),
        passed_pawns::supported(w, s) == passed_pawns::supported(v, up(s)),
        activity::ahead(w, c, s) == activity::ahead(v, c.opposite(), up(s)),
        passed_pawns::passed(w, c, s) == passed_pawns::passed(v, c.opposite(), up(s)),
{
    lemma_up(s);
    lemma_flips_back(w, v);
    lemma_neighbours_one(w, v, c, s);
    lemma_neighbours_one(v, w, c.opposite(), up(s));
}

/// The passed pawns of mirrored boards.
proof fn lemma_passed(a: Placement, b: Placement, c: Color)
    requires
        mirrored(a, b),
    ensures
        flips(evaluator::passed_on(a).set(c), evaluator::passed_on(b).set(c.opposite())),
{
    let i = evaluator::pawns_on(a);
    let j = evaluator::pawns_on(b);
    let e = c.opposite();
    lemma_accounts(a);
    lemma_accounts(b);
    lemma_paired(a, b);
    lemma_pair(i, j, c);
    lemma_pair(i, j, e);
    let x = evaluator::passed_on(a);
    let y = evaluator::passed_on(b);
    assert(x.sound(i, c));
    assert(y.sound(j, e));
    assert forall|s: int| #[trigger] bits::mem(x.set(c), s) == bits::mem(y.set(e), up(s)) by {
        lemma_neighbours(i.pawns(e), j.pawns(c), c, s);
        assert(bits::mem(i.pawns(c), s) == bits::mem(j.pawns(e), up(s)));
    }
}

// --- the terms ----------------------------------------------------------------------------------

proof fn lemma_material(a: Placement, b: Placement, c: Color, p: EvalParams, f: int)
    requires
        mirrored(a, b),
    ensures
        material::half(a, c, p, f) == material::half(b, c.opposite(), p, f),
{
    lemma_number(a, b, c, Role::Pawn);
    lemma_number(a, b, c, Role::Knight);
    lemma_number(a, b, c, Role::Bishop);
    lemma_number(a, b, c, Role::Rook);
    lemma_number(a, b, c, Role::Queen);
}

proof fn lemma_squares_of(a: Placement, b: Placement, c: Color, role: Role, p: EvalParams, f: int)
    requires
        mirrored(a, b),
    ensures
        pieces::part(a, c, role, p, f) == pieces::part(b, c.opposite(), role, p, f),
{
    let x = pieces::worth(c, role, p, f);
    let y = pieces::worth(c.opposite(), role, p, f);
    lemma_word(a, b, c, role);
    let w = evaluation::word(a, c, role);
    assert forall|s: int| #[trigger] bits::mem(w, s) implies x(s) == y(up(s)) by {
        lemma_level(c, s);
    }
    lemma_sum(w, evaluation::word(b, c.opposite(), role), x, y);
}

proof fn lemma_squares(a: Placement, b: Placement, c: Color, p: EvalParams, f: int)
    requires
        mirrored(a, b),
    ensures
        pieces::half(a, c, p, f) == pieces::half(b, c.opposite(), p, f),
{
    lemma_squares_of(a, b, c, Role::Pawn, p, f);
    lemma_squares_of(a, b, c, Role::Knight, p, f);
    lemma_squares_of(a, b, c, Role::Bishop, p, f);
    lemma_squares_of(a, b, c, Role::Rook, p, f);
    lemma_squares_of(a, b, c, Role::Queen, p, f);
    lemma_squares_of(a, b, c, Role::King, p, f);
}

proof fn lemma_structure(i: PawnInfo, j: PawnInfo, c: Color, p: EvalParams, f: int)
    requires
        paired(i, j),
    ensures
        pawns::half(i, c, p, f) == pawns::half(j, c.opposite(), p, f),
{
    let e = c.opposite();
    lemma_pair(i, j, c);
    lemma_pair(i, j, e);
    let x = pawns::worth(i, c, p, f);
    let y = pawns::worth(j, e, p, f);
    let w = i.pawns(c);
    let v = j.pawns(e);
    assert forall|s: int| #[trigger] bits::mem(w, s) implies x(s) == y(up(s)) by {
        lemma_neighbours(w, v, c, s);
        lemma_level(c, s);
        assert(bits::mem(i.hits(c), s) == bits::mem(j.hits(e), up(s)));
        assert(bits::mem(i.hits(e), evaluation::front(c, s)) == bits::mem(
            j.hits(c),
            up(evaluation::front(c, s)),
        ));
    }
    lemma_sum(w, v, x, y);
    let u = pawns::ends_run(i.files(c));
    let z = pawns::ends_run(j.files(e));
    assert forall|s: int| 0 <= s < 64 implies #[trigger] sums::flagged(u)(s) == sums::flagged(z)(s) by {
        assert(pawns::on(i.files(c), s) == pawns::on(j.files(e), s));
        assert(pawns::on(i.files(c), s + 1) == pawns::on(j.files(e), s + 1));
    }
    sums::lemma_ranged_same(64, sums::flagged(u), sums::flagged(z));
}

proof fn lemma_mobility_of(
    a: Placement,
    b: Placement,
    i: PawnInfo,
    j: PawnInfo,
    c: Color,
    role: Role,
    p: EvalParams,
    f: int,
)
    requires
        mirrored(a, b),
        paired(i, j),
    ensures
        mobility::part(a, i, c, role, p, f) == mobility::part(b, j, c.opposite(), role, p, f),
{
    let e = c.opposite();
    lemma_pair(i, j, e);
    lemma_word(a, b, c, role);
    let w = evaluation::word(a, c, role);
    let x = mobility::worth(a, i, c, role, p, f);
    let y = mobility::worth(b, j, e, role, p, f);
    assert forall|s: int| #[trigger] bits::mem(w, s) implies x(s) == y(up(s)) by {
        let u = mobility::usable(a, i, c, role, s);
        let z = mobility::usable(b, j, e, role, up(s));
        assert forall|t: int| 0 <= t < 64 implies #[trigger] u(t) == z(up(t)) by {
            lemma_aims(a, b, role, s, t);
            assert(bits::mem(a.side(c), t) == bits::mem(b.side(e), up(t)));
            assert(bits::mem(i.hits(e), t) == bits::mem(j.hits(c), up(t)));
        }
        lemma_count(u, z);
    }
    lemma_sum(w, evaluation::word(b, e, role), x, y);
}

proof fn lemma_mobility(
    a: Placement,
    b: Placement,
    i: PawnInfo,
    j: PawnInfo,
    c: Color,
    p: EvalParams,
    f: int,
)
    requires
        mirrored(a, b),
        paired(i, j),
    ensures
        mobility::half(a, i, c, p, f) == mobility::half(b, j, c.opposite(), p, f),
{
    lemma_mobility_of(a, b, i, j, c, Role::Knight, p, f);
    lemma_mobility_of(a, b, i, j, c, Role::Bishop, p, f);
    lemma_mobility_of(a, b, i, j, c, Role::Rook, p, f);
    lemma_mobility_of(a, b, i, j, c, Role::Queen, p, f);
    lemma_mobility_of(a, b, i, j, c, Role::King, p, f);
}

/// The kings of mirrored boards.
proof fn lemma_king_sq(a: Placement, b: Placement, c: Color)
    requires
        mirrored(a, b),
        a.wf(),
        b.wf(),
    ensures
        b.king_sq(c.opposite()) == up(a.king_sq(c)),
        0 <= a.king_sq(c) < 64,
        0 <= b.king_sq(c.opposite()) < 64,
{
    let e = c.opposite();
    let w = a.kings & a.side(c);
    let v = b.kings & b.side(e);
    assert(bits::ones(0) == 0);
    bits::lemma_lsb(w);
    bits::lemma_lsb(v);
    lemma_word(a, b, c, Role::King);
    assert(flips(w, v));
    assert(bits::mem(v, up(bits::lsb(w))));
    bits::lemma_ones_another(v, bits::lsb(v));
}

proof fn lemma_in_ring(c: Color, k: int, t: int)
    ensures
        king::in_ring(c, k, t) == king::in_ring(c.opposite(), up(k), up(t)),
{
    let e = c.opposite();
    lemma_shapes(k, t);
    lemma_level(e, t);
    lemma_shapes(k, evaluation::front(e, t));
    lemma_up(t);
}

proof fn lemma_shield(i: PawnInfo, j: PawnInfo, c: Color, k: int, p: EvalParams, d: int)
    requires
        paired(i, j),
    ensures
        king::cover(i, c, k, p, d) == king::cover(j, c.opposite(), up(k), p, d),
{
    let e = c.opposite();
    lemma_pair(i, j, c);
    let u = king::covers(i, c, k, d);
    let v = king::covers(j, e, up(k), d);
    assert forall|t: int| 0 <= t < 64 implies #[trigger] u(t) == v(up(t)) by {
        lemma_level(c, t);
        lemma_level(c, k);
        assert(bits::mem(i.pawns(c), t) == bits::mem(j.pawns(e), up(t)));
    }
    lemma_count(u, v);
}

proof fn lemma_holes(i: PawnInfo, j: PawnInfo, c: Color, k: int, p: EvalParams)
    requires
        paired(i, j),
    ensures
        king::holes(i, c, k, p) == king::holes(j, c.opposite(), up(k), p),
{
    let e = c.opposite();
    lemma_pair(i, j, c);
    lemma_pair(i, j, e);
    let u = king::hole(i, c, k);
    let v = king::hole(j, e, up(k));
    assert forall|t: int| 0 <= t < 64 implies #[trigger] u(t) == v(up(t)) by {
        lemma_in_ring(c, k, t);
        assert(bits::mem(i.hits(e), t) == bits::mem(j.hits(c), up(t)));
        assert(bits::mem(i.hits(c), t) == bits::mem(j.hits(e), up(t)));
    }
    lemma_count(u, v);
}

proof fn lemma_file_cost(i: PawnInfo, j: PawnInfo, c: Color, f: int, p: EvalParams)
    requires
        paired(i, j),
    ensures
        king::file_cost(i, c, f, p) == king::file_cost(j, c.opposite(), f, p),
{
    lemma_pair(i, j, c);
    assert(pawns::on(i.white_files, f) == pawns::on(j.black_files, f));
    assert(pawns::on(i.black_files, f) == pawns::on(j.white_files, f));
}

proof fn lemma_pressed(
    a: Placement,
    b: Placement,
    i: PawnInfo,
    j: PawnInfo,
    c: Color,
    k: int,
    role: Role,
)
    requires
        mirrored(a, b),
        paired(i, j),
    ensures
        king::pressed(a, i, c, k, role) == king::pressed(b, j, c.opposite(), up(k), role),
{
    let e = c.opposite();
    lemma_pair(i, j, e);
    lemma_word(a, b, e, Role::Pawn);
    lemma_ones(evaluation::word(a, e, Role::Pawn), evaluation::word(b, c, Role::Pawn));
    let u = king::presses(a, i, c, k, role);
    let v = king::presses(b, j, e, up(k), role);
    assert forall|t: int| 0 <= t < 64 implies #[trigger] u(t) == v(up(t)) by {
        lemma_in_ring(c, k, t);
        lemma_hit_by(a, b, e, role, t);
        assert(bits::mem(i.hits(e), t) == bits::mem(j.hits(c), up(t)));
    }
    lemma_count(u, v);
}

proof fn lemma_intrudes(
    a: Placement,
    b: Placement,
    i: PawnInfo,
    j: PawnInfo,
    c: Color,
    k: int,
    role: Role,
    t: int,
)
    requires
        mirrored(a, b),
        paired(i, j),
    ensures
        king::intrudes(a, i, c, k, role, t) == king::intrudes(
            b,
            j,
            c.opposite(),
            up(k),
            role,
            up(t),
        ),
{
    let e = c.opposite();
    lemma_pressed(a, b, i, j, c, k, role);
    lemma_in_ring(c, k, t);
    lemma_word(a, b, e, role);
    assert(bits::mem(evaluation::word(a, e, role), t) == bits::mem(
        evaluation::word(b, c, role),
        up(t),
    ));
}

proof fn lemma_danger(
    a: Placement,
    b: Placement,
    i: PawnInfo,
    j: PawnInfo,
    c: Color,
    k: int,
    p: EvalParams,
)
    requires
        mirrored(a, b),
        paired(i, j),
    ensures
        king::danger(a, i, c, k, p) == king::danger(b, j, c.opposite(), up(k), p),
{
    let e = c.opposite();
    lemma_pressed(a, b, i, j, c, k, Role::Pawn);
    lemma_pressed(a, b, i, j, c, k, Role::Knight);
    lemma_pressed(a, b, i, j, c, k, Role::Bishop);
    lemma_pressed(a, b, i, j, c, k, Role::Rook);
    lemma_pressed(a, b, i, j, c, k, Role::Queen);
    let u = king::intruder(a, i, c, k);
    let v = king::intruder(b, j, e, up(k));
    assert forall|t: int| 0 <= t < 64 implies #[trigger] u(t) == v(up(t)) by {
        lemma_intrudes(a, b, i, j, c, k, Role::Pawn, t);
        lemma_intrudes(a, b, i, j, c, k, Role::Knight, t);
        lemma_intrudes(a, b, i, j, c, k, Role::Bishop, t);
        lemma_intrudes(a, b, i, j, c, k, Role::Rook, t);
        lemma_intrudes(a, b, i, j, c, k, Role::Queen, t);
    }
    lemma_count(u, v);
}

proof fn lemma_king_activity(i: PawnInfo, j: PawnInfo, c: Color, k: int, p: EvalParams)
    requires
        paired(i, j),
    ensures
        king::activity(i, c, k, p) == king::activity(j, c.opposite(), up(k), p),
{
    let e = c.opposite();
    lemma_pair(i, j, c);
    lemma_pair(i, j, e);
    lemma_up(k);
    let x = king::race(i, c, k);
    let y = king::race(j, e, up(k));
    let w = i.pawns(e);
    assert forall|s: int| #[trigger] bits::mem(w, s) implies x(s) == y(up(s)) by {
        lemma_neighbours(i.pawns(c), j.pawns(e), e, s);
        lemma_up(s);
    }
    lemma_sum(w, j.pawns(c), x, y);
}

proof fn lemma_king(
    a: Placement,
    b: Placement,
    i: PawnInfo,
    j: PawnInfo,
    c: Color,
    p: EvalParams,
    f: int,
)
    requires
        mirrored(a, b),
        paired(i, j),
        a.wf(),
        b.wf(),
    ensures
        king::half(a, i, c, p, f) == king::half(b, j, c.opposite(), p, f),
{
    let k = a.king_sq(c);
    lemma_king_sq(a, b, c);
    lemma_up(k);
    lemma_shield(i, j, c, k, p, 1);
    lemma_shield(i, j, c, k, p, 2);
    lemma_shield(i, j, c, k, p, 3);
    lemma_danger(a, b, i, j, c, k, p);
    lemma_file_cost(i, j, c, k % 8 - 1, p);
    lemma_file_cost(i, j, c, k % 8, p);
    lemma_file_cost(i, j, c, k % 8 + 1, p);
    lemma_holes(i, j, c, k, p);
    lemma_king_activity(i, j, c, k, p);
}

proof fn lemma_distance(x: int, y: int)
    ensures
        evaluation::distance(up(x), up(y)) == evaluation::distance(x, y),
{
    lemma_up(x);
    lemma_up(y);
}

proof fn lemma_goal(c: Color, s: int)
    ensures
        passed_pawns::promotion_square(c.opposite(), up(s)) == up(
            passed_pawns::promotion_square(c, s),
        ),
{
    reveal(up);
}

#[verifier::spinoff_prover]
proof fn lemma_rank_bonus(a: Placement, b: Placement, c: Color, p: EvalParams, f: int, s: int)
    requires
        mirrored(a, b),
        a.wf(),
        b.wf(),
    ensures
        passed_pawns::rank_bonus(a, c, p, f, s) == passed_pawns::rank_bonus(
            b,
            c.opposite(),
            p,
            f,
            up(s),
        ),
{
    let e = c.opposite();
    lemma_king_sq(a, b, c);
    lemma_king_sq(a, b, e);
    lemma_level(c, s);
    lemma_up(s);
    let goal = passed_pawns::promotion_square(c, s);
    lemma_goal(c, s);
    lemma_distance(a.king_sq(c), goal);
    lemma_distance(a.king_sq(e), goal);
}

proof fn lemma_passed_worth(
    a: Placement,
    b: Placement,
    c: Color,
    p: EvalParams,
    f: int,
)
    requires
        mirrored(a, b),
        a.wf(),
        b.wf(),
    ensures
        passed_pawns::half(a, evaluator::pawns_on(a), evaluator::passed_on(a), c, p, f)
            == passed_pawns::half(
            b,
            evaluator::pawns_on(b),
            evaluator::passed_on(b),
            c.opposite(),
            p,
            f,
        ),
{
    let e = c.opposite();
    let i = evaluator::pawns_on(a);
    let j = evaluator::pawns_on(b);
    let w = evaluator::passed_on(a).set(c);
    let v = evaluator::passed_on(b).set(e);
    lemma_paired(a, b);
    lemma_pair(i, j, c);
    lemma_passed(a, b, c);
    let x = passed_pawns::worth(a, i, w, c, p, f);
    let y = passed_pawns::worth(b, j, v, e, p, f);
    assert forall|s: int| #[trigger] bits::mem(w, s) implies x(s) == y(up(s)) by {
        lemma_rank_bonus(a, b, c, p, f, s);
        lemma_neighbours(w, v, c, s);
        assert(bits::mem(i.hits(c), s) == bits::mem(j.hits(e), up(s)));
    }
    lemma_sum(w, v, x, y);
}

proof fn lemma_attacked(a: Placement, b: Placement, i: PawnInfo, j: PawnInfo, c: Color, t: int)
    requires
        mirrored(a, b),
        paired(i, j),
        a.wf(),
        b.wf(),
    ensures
        threats::attacked(a, i, c, t) == threats::attacked(b, j, c.opposite(), up(t)),
{
    lemma_pair(i, j, c);
    lemma_hit_by(a, b, c, Role::Knight, t);
    lemma_hit_by(a, b, c, Role::Bishop, t);
    lemma_hit_by(a, b, c, Role::Rook, t);
    lemma_hit_by(a, b, c, Role::Queen, t);
    lemma_king_sq(a, b, c);
    lemma_shapes(a.king_sq(c), t);
    assert(bits::mem(i.hits(c), t) == bits::mem(j.hits(c.opposite()), up(t)));
}

proof fn lemma_role_code(a: Placement, b: Placement, t: int)
    requires
        mirrored(a, b),
    ensures
        a.role_code(t) == b.role_code(up(t)),
{
    assert(bits::mem(a.pawns, t) == bits::mem(b.pawns, up(t)));
    assert(bits::mem(a.knights, t) == bits::mem(b.knights, up(t)));
    assert(bits::mem(a.bishops, t) == bits::mem(b.bishops, up(t)));
    assert(bits::mem(a.rooks, t) == bits::mem(b.rooks, up(t)));
    assert(bits::mem(a.queens, t) == bits::mem(b.queens, up(t)));
    assert(bits::mem(a.kings, t) == bits::mem(b.kings, up(t)));
}

proof fn lemma_loot(
    a: Placement,
    b: Placement,
    i: PawnInfo,
    j: PawnInfo,
    c: Color,
    p: EvalParams,
    t: int,
)
    requires
        mirrored(a, b),
        paired(i, j),
        a.wf(),
        b.wf(),
    ensures
        threats::loot(a, i, c, p)(t) == threats::loot(b, j, c.opposite(), p)(up(t)),
{
    let e = c.opposite();
    lemma_attacked(a, b, i, j, c, t);
    lemma_attacked(a, b, i, j, e, t);
    lemma_king_sq(a, b, e);
    lemma_shapes(a.king_sq(e), t);
    lemma_word(a, b, e, Role::King);
    lemma_role_code(a, b, t);
    assert(bits::mem(a.side(e), t) == bits::mem(b.side(c), up(t)));
    assert(bits::mem(evaluation::word(a, e, Role::King), t) == bits::mem(
        evaluation::word(b, c, Role::King),
        up(t),
    ));
    assert(threats::hangs(a, i, c, t) == threats::hangs(b, j, e, up(t)));
    assert(a.role_on(t) == b.role_on(up(t)));
}

proof fn lemma_threats(
    a: Placement,
    b: Placement,
    i: PawnInfo,
    j: PawnInfo,
    c: Color,
    p: EvalParams,
    f: int,
)
    requires
        mirrored(a, b),
        paired(i, j),
        a.wf(),
        b.wf(),
    ensures
        threats::half(a, i, c, p, f) == threats::half(b, j, c.opposite(), p, f),
{
    let e = c.opposite();
    lemma_pair(i, j, c);
    lemma_pair(i, j, e);
    lemma_word(a, b, e, Role::Pawn);
    lemma_word(a, b, c, Role::Knight);
    lemma_word(a, b, c, Role::Bishop);
    let x = threats::loot(a, i, c, p);
    let y = threats::loot(b, j, e, p);
    assert forall|t: int| 0 <= t < 64 implies #[trigger] x(t) == y(56 - 8 * (t / 8) + t % 8) by {
        lemma_loot(a, b, i, j, c, p, t);
        reveal(up);
    }
    sums::lemma_ranged_upside(x, y);
    let u = threats::forked(a, i, c);
    let v = threats::forked(b, j, e);
    assert forall|t: int| 0 <= t < 64 implies #[trigger] u(t) == v(up(t)) by {
        assert(bits::mem(i.hits(c), t) == bits::mem(j.hits(e), up(t)));
        assert(bits::mem(a.side(e), t) == bits::mem(b.side(c), up(t)));
        assert(bits::mem(evaluation::word(a, e, Role::Pawn), t) == bits::mem(
            evaluation::word(b, c, Role::Pawn),
            up(t),
        ));
    }
    lemma_count(u, v);
    let q = threats::weak(a, i, c);
    let r = threats::weak(b, j, e);
    assert forall|t: int| 0 <= t < 64 implies #[trigger] q(t) == r(up(t)) by {
        assert(bits::mem(i.hits(e), t) == bits::mem(j.hits(c), up(t)));
        assert(bits::mem(evaluation::word(a, c, Role::Knight), t) == bits::mem(
            evaluation::word(b, e, Role::Knight),
            up(t),
        ));
        assert(bits::mem(evaluation::word(a, c, Role::Bishop), t) == bits::mem(
            evaluation::word(b, e, Role::Bishop),
            up(t),
        ));
    }
    lemma_count(q, r);
}

proof fn lemma_rooks(
    a: Placement,
    b: Placement,
    i: PawnInfo,
    j: PawnInfo,
    c: Color,
    p: EvalParams,
    f: int,
)
    requires
        mirrored(a, b),
        paired(i, j),
    ensures
        threats::rook_half(a, i, c, p, f) == threats::rook_half(b, j, c.opposite(), p, f),
{
    let e = c.opposite();
    lemma_pair(i, j, c);
    lemma_pair(i, j, e);
    lemma_word(a, b, c, Role::Rook);
    lemma_word(a, b, e, Role::Rook);
    let w = evaluation::word(a, c, Role::Rook);
    let x = threats::rook_worth(a, i, c, p, f);
    let y = threats::rook_worth(b, j, e, p, f);
    assert forall|s: int| #[trigger] bits::mem(w, s) implies x(s) == y(up(s)) by {
        lemma_level(c, s);
        lemma_on_file(i.white, j.black, s % 8);
        lemma_on_file(i.black, j.white, s % 8);
        lemma_on_file(
            evaluation::word(a, e, Role::Rook),
            evaluation::word(b, c, Role::Rook),
            s % 8,
        );
    }
    lemma_sum(w, evaluation::word(b, e, Role::Rook), x, y);
}

proof fn lemma_space(i: PawnInfo, j: PawnInfo, x: int)
    requires
        paired(i, j),
    ensures
        threats::space(i, x) == -threats::space(j, x),
{
    lemma_advanced(i, j, Color::White);
    lemma_advanced(i, j, Color::Black);
    let m = sums::how_many(threats::advanced(i, Color::White));
    let n = sums::how_many(threats::advanced(i, Color::Black));
    assert((m - n) * x == -((n - m) * x)) by (nonlinear_arith);
}

proof fn lemma_advanced(i: PawnInfo, j: PawnInfo, c: Color)
    requires
        paired(i, j),
    ensures
        sums::how_many(threats::advanced(i, c)) == sums::how_many(
            threats::advanced(j, c.opposite()),
        ),
{
    let e = c.opposite();
    lemma_pair(i, j, c);
    lemma_pair(i, j, e);
    let u = threats::advanced(i, c);
    let v = threats::advanced(j, e);
    assert forall|t: int| 0 <= t < 64 implies #[trigger] u(t) == v(up(t)) by {
        lemma_level(c, t);
        lemma_presses(c, t);
        assert(bits::mem(i.pawns(c), t) == bits::mem(j.pawns(e), up(t)));
        assert(bits::mem(i.hits(e), t) == bits::mem(j.hits(c), up(t)));
    }
    lemma_count(u, v);
}

proof fn lemma_presses_one(c: Color, s: int)
    requires
        threats::presses(c, s),
    ensures
        threats::presses(c.opposite(), up(s)),
{
    let t = choose|t: int| #[trigger]
        geometry::pawn_step(c.index(), s, t) && evaluation::level(c, t) >= 4;
    lemma_shapes(s, t);
    lemma_level(c, t);
    assert(geometry::pawn_step(c.opposite().index(), up(s), up(t)));
}

proof fn lemma_presses(c: Color, s: int)
    ensures
        threats::presses(c, s) == threats::presses(c.opposite(), up(s)),
{
    lemma_up(s);
    if threats::presses(c, s) {
        lemma_presses_one(c, s);
    }
    if threats::presses(c.opposite(), up(s)) {
        lemma_presses_one(c.opposite(), up(s));
    }
}

// --- activity -----------------------------------------------------------------------------------

proof fn lemma_outposts(
    a: Placement,
    b: Placement,
    i: PawnInfo,
    j: PawnInfo,
    c: Color,
    role: Role,
)
    requires
        mirrored(a, b),
        paired(i, j),
    ensures
        sums::how_many(activity::outpost(a, i, c, role)) == sums::how_many(
            activity::outpost(b, j, c.opposite(), role),
        ),
{
    let e = c.opposite();
    lemma_word(a, b, c, role);
    lemma_pair(i, j, c);
    lemma_pair(i, j, e);
    let u = activity::outpost(a, i, c, role);
    let v = activity::outpost(b, j, e, role);
    assert forall|s: int| 0 <= s < 64 implies #[trigger] u(s) == v(up(s)) by {
        lemma_level(c, s);
        assert(bits::mem(evaluation::word(a, c, role), s) == bits::mem(
            evaluation::word(b, e, role),
            up(s),
        ));
        assert(bits::mem(i.hits(c), s) == bits::mem(j.hits(e), up(s)));
        assert(bits::mem(i.hits(e), s) == bits::mem(j.hits(c), up(s)));
    }
    lemma_count(u, v);
}

proof fn lemma_bad_bishops(
    a: Placement,
    b: Placement,
    i: PawnInfo,
    j: PawnInfo,
    c: Color,
    p: EvalParams,
    f: int,
)
    requires
        mirrored(a, b),
        paired(i, j),
    ensures
        activity::bad_bishops(a, i, c, p, f) == activity::bad_bishops(b, j, c.opposite(), p, f),
{
    let e = c.opposite();
    lemma_pair(i, j, c);
    lemma_word(a, b, c, Role::Bishop);
    let w = evaluation::word(a, c, Role::Bishop);
    let x = activity::hemmed(i, c, p, f);
    let y = activity::hemmed(j, e, p, f);
    assert forall|s: int| #[trigger] bits::mem(w, s) implies x(s) == y(up(s)) by {
        let u = activity::hemming(i, c, s);
        let v = activity::hemming(j, e, up(s));
        lemma_up(s);
        assert forall|t: int| 0 <= t < 64 implies #[trigger] u(t) == v(up(t)) by {
            lemma_up(t);
            assert(bits::mem(i.pawns(c), t) == bits::mem(j.pawns(e), up(t)));
        }
        lemma_count(u, v);
    }
    lemma_sum(w, evaluation::word(b, e, Role::Bishop), x, y);
}

proof fn lemma_out_one(a: Placement, b: Placement, c: Color, role: Role, f: int, g: int)
    requires
        mirrored(a, b),
        activity::out(a, c, role, f, g),
    ensures
        activity::out(b, c.opposite(), role, f, g),
{
    lemma_word(a, b, c, role);
    let s = choose|s: int| #[trigger]
        bits::mem(evaluation::word(a, c, role), s) && !(evaluation::level(c, s) == 0 && (s % 8 == f
            || s % 8 == g));
    lemma_level(c, s);
    assert(bits::mem(evaluation::word(b, c.opposite(), role), up(s)));
}

proof fn lemma_out(a: Placement, b: Placement, c: Color, role: Role, f: int, g: int)
    requires
        mirrored(a, b),
    ensures
        activity::out(a, c, role, f, g) == activity::out(b, c.opposite(), role, f, g),
{
    lemma_mirrored_back(a, b);
    if activity::out(a, c, role, f, g) {
        lemma_out_one(a, b, c, role, f, g);
    }
    if activity::out(b, c.opposite(), role, f, g) {
        lemma_out_one(b, a, c.opposite(), role, f, g);
    }
}

proof fn lemma_undeveloped(a: Placement, b: Placement, c: Color)
    requires
        mirrored(a, b),
    ensures
        sums::how_many(activity::undeveloped(a, c)) == sums::how_many(
            activity::undeveloped(b, c.opposite()),
        ),
{
    let e = c.opposite();
    lemma_word(a, b, c, Role::Knight);
    lemma_word(a, b, c, Role::Bishop);
    let u = activity::undeveloped(a, c);
    let v = activity::undeveloped(b, e);
    assert forall|t: int| 0 <= t < 64 implies #[trigger] u(t) == v(up(t)) by {
        lemma_level(c, t);
        assert(bits::mem(evaluation::word(a, c, Role::Knight), t) == bits::mem(
            evaluation::word(b, e, Role::Knight),
            up(t),
        ));
        assert(bits::mem(evaluation::word(a, c, Role::Bishop), t) == bits::mem(
            evaluation::word(b, e, Role::Bishop),
            up(t),
        ));
    }
    lemma_count(u, v);
}

proof fn lemma_together_one(a: Placement, b: Placement, c: Color)
    requires
        mirrored(a, b),
        activity::rooks_together(a, c),
    ensures
        activity::rooks_together(b, c.opposite()),
{
    let e = c.opposite();
    lemma_number(a, b, c, Role::Rook);
    lemma_word(a, b, c, Role::Rook);
    let (s, t) = choose|s: int, t: int|
        #![trigger geometry::clear(s, t, a.white | a.black)]
        bits::mem(evaluation::word(a, c, Role::Rook), s) && bits::mem(
            evaluation::word(a, c, Role::Rook),
            t,
        ) && s < t && s / 8 == t / 8 && geometry::clear(s, t, a.white | a.black);
    lemma_up(s);
    lemma_up(t);
    lemma_clear(s, t, a.white | a.black, b.white | b.black);
    assert(bits::mem(evaluation::word(b, e, Role::Rook), up(s)));
    assert(bits::mem(evaluation::word(b, e, Role::Rook), up(t)));
    assert(geometry::clear(up(s), up(t), b.white | b.black));
}

proof fn lemma_together(a: Placement, b: Placement, c: Color)
    requires
        mirrored(a, b),
    ensures
        activity::rooks_together(a, c) == activity::rooks_together(b, c.opposite()),
{
    lemma_mirrored_back(a, b);
    if activity::rooks_together(a, c) {
        lemma_together_one(a, b, c);
    }
    if activity::rooks_together(b, c.opposite()) {
        lemma_together_one(b, a, c.opposite());
    }
}

proof fn lemma_behind(a: Placement, b: Placement, c: Color)
    requires
        mirrored(a, b),
    ensures
        sums::how_many(activity::rook_behind(a, evaluator::passed_on(a), c)) == sums::how_many(
            activity::rook_behind(b, evaluator::passed_on(b), c.opposite()),
        ),
        sums::how_many(activity::queen_behind(a, evaluator::passed_on(a), c)) == sums::how_many(
            activity::queen_behind(b, evaluator::passed_on(b), c.opposite()),
        ),
{
    let e = c.opposite();
    let x = evaluator::passed_on(a);
    let y = evaluator::passed_on(b);
    lemma_passed(a, b, c);
    lemma_passed(a, b, e);
    lemma_word(a, b, c, Role::Rook);
    lemma_word(a, b, c, Role::Queen);
    let u = activity::rook_behind(a, x, c);
    let v = activity::rook_behind(b, y, e);
    assert forall|t: int| 0 <= t < 64 implies #[trigger] u(t) == v(up(t)) by {
        lemma_neighbours(x.set(c), y.set(e), c, t);
        lemma_neighbours(x.set(e), y.set(c), e, t);
        assert(bits::mem(evaluation::word(a, c, Role::Rook), t) == bits::mem(
            evaluation::word(b, e, Role::Rook),
            up(t),
        ));
    }
    lemma_count(u, v);
    let q = activity::queen_behind(a, x, c);
    let r = activity::queen_behind(b, y, e);
    assert forall|t: int| 0 <= t < 64 implies #[trigger] q(t) == r(up(t)) by {
        lemma_neighbours(x.set(c), y.set(e), c, t);
        assert(bits::mem(evaluation::word(a, c, Role::Queen), t) == bits::mem(
            evaluation::word(b, e, Role::Queen),
            up(t),
        ));
    }
    lemma_count(q, r);
}

proof fn lemma_hunted(a: Placement, b: Placement, i: PawnInfo, j: PawnInfo, c: Color)
    requires
        mirrored(a, b),
        paired(i, j),
    ensures
        sums::how_many(activity::queen_hunted(a, i, c)) == sums::how_many(
            activity::queen_hunted(b, j, c.opposite()),
        ),
{
    let e = c.opposite();
    lemma_pair(i, j, e);
    lemma_word(a, b, c, Role::Queen);
    let u = activity::queen_hunted(a, i, c);
    let v = activity::queen_hunted(b, j, e);
    assert forall|t: int| 0 <= t < 64 implies #[trigger] u(t) == v(up(t)) by {
        assert(bits::mem(i.hits(e), t) == bits::mem(j.hits(c), up(t)));
        assert(bits::mem(evaluation::word(a, c, Role::Queen), t) == bits::mem(
            evaluation::word(b, e, Role::Queen),
            up(t),
        ));
    }
    lemma_count(u, v);
}

proof fn lemma_activity(a: Placement, b: Placement, c: Color, ph: int, p: EvalParams, f: int)
    requires
        mirrored(a, b),
    ensures
        activity::half(a, evaluator::pawns_on(a), evaluator::passed_on(a), c, ph, p, f)
            == activity::half(
            b,
            evaluator::pawns_on(b),
            evaluator::passed_on(b),
            c.opposite(),
            ph,
            p,
            f,
        ),
{
    let e = c.opposite();
    let i = evaluator::pawns_on(a);
    let j = evaluator::pawns_on(b);
    lemma_paired(a, b);
    lemma_outposts(a, b, i, j, c, Role::Knight);
    lemma_outposts(a, b, i, j, c, Role::Bishop);
    lemma_bad_bishops(a, b, i, j, c, p, f);
    lemma_undeveloped(a, b, c);
    lemma_out(a, b, c, Role::Knight, 1, 6);
    lemma_out(a, b, c, Role::Bishop, 2, 5);
    lemma_together(a, b, c);
    lemma_behind(a, b, c);
    lemma_hunted(a, b, i, j, c);
}

// --- the laws -------------------------------------------------------------------------------------

/// The phase of a board is that of the board turned around.
pub proof fn law_phase_mirrors(a: Placement, b: Placement, p: EvalParams)
    requires
        mirrored(a, b),
    ensures
        phase::phase_of(a, p) == phase::phase_of(b, p),
{
    lemma_number(a, b, Color::White, Role::Queen);
    lemma_number(a, b, Color::Black, Role::Queen);
    lemma_number(a, b, Color::White, Role::Rook);
    lemma_number(a, b, Color::Black, Role::Rook);
    lemma_number(a, b, Color::White, Role::Bishop);
    lemma_number(a, b, Color::Black, Role::Bishop);
    lemma_number(a, b, Color::White, Role::Knight);
    lemma_number(a, b, Color::Black, Role::Knight);
}

proof fn lemma_share(a: Placement, b: Placement, p: EvalParams, c: Color, k: int, f: int)
    requires
        mirrored(a, b),
        a.wf(),
        b.wf(),
    ensures
        evaluator::share(a, p, c, k, f) == evaluator::share(b, p, c.opposite(), k, f),
{
    let i = evaluator::pawns_on(a);
    let j = evaluator::pawns_on(b);
    lemma_paired(a, b);
    law_phase_mirrors(a, b, p);
    if k == 0 {
        lemma_material(a, b, c, p, f);
    } else if k == 1 {
        lemma_squares(a, b, c, p, f);
    } else if k == 2 {
        lemma_structure(i, j, c, p, f);
    } else if k == 3 {
        lemma_mobility(a, b, i, j, c, p, f);
    } else if k == 4 {
        lemma_king(a, b, i, j, c, p, f);
    } else if k == 5 {
        lemma_activity(a, b, c, phase::phase_of(a, p), p, f);
    } else if k == 6 {
        lemma_passed_worth(a, b, c, p, f);
    } else if k == 8 {
        lemma_threats(a, b, i, j, c, p, f);
        lemma_rooks(a, b, i, j, c, p, f);
    }
}

/// Every term changes its sign when the board is turned around.
pub proof fn law_term_mirrors(a: Placement, b: Placement, p: EvalParams, k: int, f: int)
    requires
        mirrored(a, b),
        a.wf(),
        b.wf(),
    ensures
        evaluator::term(b, p, k, f) == -evaluator::term(a, p, k, f),
{
    lemma_share(a, b, p, Color::White, k, f);
    lemma_share(a, b, p, Color::Black, k, f);
    if k == 7 {
        lemma_paired(a, b);
        lemma_space(
            evaluator::pawns_on(a),
            evaluator::pawns_on(b),
            if f == 0 {
                p.space_mg as int
            } else {
                p.space_eg as int
            },
        );
    }
}

proof fn lemma_terms(a: Placement, b: Placement, p: EvalParams, n: int, f: int)
    requires
        mirrored(a, b),
        a.wf(),
        b.wf(),
    ensures
        evaluator::terms(b, p, n, f) == -evaluator::terms(a, p, n, f),
    decreases n,
{
    if n > 0 {
        lemma_terms(a, b, p, n - 1, f);
        law_term_mirrors(a, b, p, n - 1, f);
    }
}

/// What a board is worth changes its sign when the board is turned around.
pub proof fn law_worth_mirrors(a: Placement, b: Placement, p: EvalParams)
    requires
        mirrored(a, b),
        a.wf(),
        b.wf(),
    ensures
        evaluator::worth(b, p) == -evaluator::worth(a, p),
{
    lemma_terms(a, b, p, 9, 0);
    lemma_terms(a, b, p, 9, 1);
    law_phase_mirrors(a, b, p);
    let mg = evaluator::total(a, p, 0);
    let eg = evaluator::total(a, p, 1);
    let ph = phase::phase_of(a, p);
    let m = if p.phase_max < 1 {
        1
    } else {
        p.phase_max as int
    };
    assert((-mg) * ph + (-eg) * (m - ph) == -(mg * ph + eg * (m - ph))) by (nonlinear_arith);
    lemma_trunc_odd(mg * ph + eg * (m - ph), m);
}

proof fn lemma_trunc_odd(x: int, m: int)
    requires
        1 <= m,
    ensures
        arith::trunc_div(-x, m) == -arith::trunc_div(x, m),
{
    if x == 0 {
        vstd::arithmetic::div_mod::lemma_div_basics(m);
    }
}

proof fn lemma_only_queens(a: Placement, b: Placement, c: Color)
    requires
        mirrored(b, a),
        forall|s: int| #[trigger]
            bits::mem(a.side(c), s) ==> bits::mem(a.kings, s) || bits::mem(a.queens, s),
    ensures
        forall|s: int| #[trigger]
            bits::mem(b.side(c.opposite()), s) ==> bits::mem(b.kings, s) || bits::mem(b.queens, s),
{
    let e = c.opposite();
    assert forall|s: int| #[trigger] bits::mem(b.side(e), s) implies bits::mem(b.kings, s)
        || bits::mem(b.queens, s) by {
        assert(flips(b.side(e), a.side(c)));
        assert(bits::mem(b.side(e), s) == bits::mem(a.side(c), up(s)));
        assert(bits::mem(b.kings, s) == bits::mem(a.kings, up(s)));
        assert(bits::mem(b.queens, s) == bits::mem(a.queens, up(s)));
    }
}

/// The shade of a square.
spec fn shade(s: int) -> int {
    (s % 8 + s / 8) % 2
}

proof fn lemma_shade(s: int)
    ensures
        shade(up(s)) == 1 - shade(s),
{
    lemma_up(s);
}

proof fn lemma_one_shade(w: u64, v: u64)
    requires
        flips(v, w),
        forall|s: int, t: int|
            #![trigger bits::mem(w, s), bits::mem(w, t)]
            bits::mem(w, s) && bits::mem(w, t) ==> (s % 8 + s / 8) % 2 == (t % 8 + t / 8) % 2,
    ensures
        forall|s: int, t: int|
            #![trigger bits::mem(v, s), bits::mem(v, t)]
            bits::mem(v, s) && bits::mem(v, t) ==> (s % 8 + s / 8) % 2 == (t % 8 + t / 8) % 2,
{
    assert forall|s: int, t: int|
        #![trigger bits::mem(v, s), bits::mem(v, t)]
        bits::mem(v, s) && bits::mem(v, t) implies (s % 8 + s / 8) % 2 == (t % 8 + t / 8) % 2 by {
        assert(bits::mem(w, up(s)) && bits::mem(w, up(t)));
        assert(shade(up(s)) == shade(up(t)));
        lemma_shade(s);
        lemma_shade(t);
        assert(shade(s) == shade(t));
    }
}

proof fn lemma_bare_side(a: Placement, b: Placement, c: Color)
    requires
        mirrored(a, b),
        rules::bare_side(a, c),
    ensures
        rules::bare_side(b, c.opposite()),
{
    let e = c.opposite();
    lemma_mirrored_back(a, b);
    lemma_owns(a, b, c, Role::Pawn);
    lemma_owns(a, b, c, Role::Rook);
    lemma_owns(a, b, c, Role::Queen);
    lemma_owns(a, b, c, Role::Knight);
    lemma_owns(a, b, c, Role::Bishop);
    assert(flips(a.side(c), b.side(e)));
    lemma_ones(a.side(c), b.side(e));
    lemma_ones(a.knights, b.knights);
    lemma_ones(a.pawns, b.pawns);
    if rules::owns(a, c, Role::Knight) {
        lemma_only_queens(a, b, e);
    } else if rules::owns(a, c, Role::Bishop) {
        lemma_one_shade(a.bishops, b.bishops);
    }
}

proof fn lemma_owns_one(a: Placement, b: Placement, c: Color, role: Role)
    requires
        mirrored(a, b),
        rules::owns(a, c, role),
    ensures
        rules::owns(b, c.opposite(), role),
{
    lemma_word(a, b, c, role);
    let s = choose|s: int| #[trigger] bits::mem(a.side(c), s) && bits::mem(a.kind(role), s);
    assert(bits::mem(a.kind(role), s) == bits::mem(b.kind(role), up(s)));
    assert(bits::mem(b.side(c.opposite()), up(s)));
}

proof fn lemma_owns(a: Placement, b: Placement, c: Color, role: Role)
    requires
        mirrored(a, b),
    ensures
        rules::owns(a, c, role) == rules::owns(b, c.opposite(), role),
{
    lemma_mirrored_back(a, b);
    if rules::owns(a, c, role) {
        lemma_owns_one(a, b, c, role);
    }
    if rules::owns(b, c.opposite(), role) {
        lemma_owns_one(b, a, c.opposite(), role);
    }
}

/// The evaluation of a position changes its sign when the board is turned around
/// and the same side moves, and stays the same when the other side moves.
pub proof fn law_evaluation_mirrors(a: Placement, b: Placement, p: EvalParams, turn: Color)
    requires
        mirrored(a, b),
        a.wf(),
        b.wf(),
    ensures
        evaluator::scored(evaluator::worth(b, p), rules::bare(b), turn) == -evaluator::scored(
            evaluator::worth(a, p),
            rules::bare(a),
            turn,
        ),
        evaluator::scored(evaluator::worth(b, p), rules::bare(b), turn.opposite())
            == evaluator::scored(evaluator::worth(a, p), rules::bare(a), turn),
{
    law_worth_mirrors(a, b, p);
    lemma_mirrored_back(a, b);
    if rules::bare(a) {
        lemma_bare_side(a, b, Color::White);
        lemma_bare_side(a, b, Color::Black);
    }
    if rules::bare(b) {
        lemma_bare_side(b, a, Color::White);
        lemma_bare_side(b, a, Color::Black);
    }
}

} // verus!
