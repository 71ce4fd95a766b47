//! What each parameter counts: every term is the sum of its parameters, each as often as
//! what it stands for is on the board.
use vstd::prelude::*;
use crate::bits;
use crate::board::Placement;
use crate::evaluation;
use crate::evaluation::activity;
use crate::evaluation::king;
use crate::evaluation::mobility;
use crate::evaluation::params;
use crate::evaluation::params::EvalParams;
use crate::evaluation::passed_pawns;
use crate::evaluation::passed_pawns::PassedInfo;
use crate::evaluation::pawns;
use crate::evaluation::pawns::PawnInfo;
use crate::evaluation::threats;
use crate::nnue::attacks;
use crate::nnue::geometry;
use crate::nnue::types::Color;
use crate::sums;
use crate::types::Role;

verus! {

/// The way forward: up the ranks for White, down for Black.
pub open spec fn ahead(c: Color) -> int {
    if c == Color::White {
        1
    } else {
        -1
    }
}

/// How many ranks forward it is from `s` to `t`.
pub open spec fn gone(c: Color, s: int, t: int) -> int {
    if c == Color::White {
        t / 8 - s / 8
    } else {
        s / 8 - t / 8
    }
}

/// Two squares are on files next to each other.
pub open spec fn next_file(s: int, t: int) -> bool {
    s % 8 - t % 8 == 1 || t % 8 - s % 8 == 1
}

/// A pawn of `w` defends or attacks `s`: it stands one rank behind, on a file beside.
pub open spec fn guarded(w: u64, c: Color, s: int) -> bool {
    exists|t: int| #[trigger] bits::mem(w, t) && next_file(s, t) && s / 8 == t / 8 + ahead(c)
}

proof fn lemma_guarded(info: PawnInfo, c: Color, s: int)
    requires
        info.sound(c),
        0 <= s < 64,
    ensures
        bits::mem(info.hits(c), s) == guarded(info.pawns(c), c, s),
{
    let w = info.pawns(c);
    if pawns::struck(w, c, s) {
        let t = choose|t: int| bits::mem(w, t) && #[trigger] geometry::pawn_step(c.index(), t, s);
        assert(bits::mem(w, t) && next_file(s, t) && s / 8 == t / 8 + ahead(c));
    }
    if guarded(w, c, s) {
        let t = choose|t: int| #[trigger]
            bits::mem(w, t) && next_file(s, t) && s / 8 == t / 8 + ahead(c);
        assert(geometry::pawn_step(c.index(), t, s));
    }
}

proof fn lemma_off_board(info: PawnInfo, c: Color, s: int)
    requires
        !(0 <= s < 64),
    ensures
        !bits::mem(info.hits(c), s),
{
}

/// A sum of five numbers for each square of a set.
proof fn lemma_five(
    w: u64,
    f: spec_fn(int) -> int,
    a: spec_fn(int) -> bool,
    x: int,
    b: spec_fn(int) -> bool,
    y: int,
    c: spec_fn(int) -> bool,
    z: int,
    d: spec_fn(int) -> bool,
    u: int,
    e: spec_fn(int) -> bool,
    v: int,
)
    requires
        forall|s: int| #[trigger] a(s) ==> bits::mem(w, s),
        forall|s: int| #[trigger] b(s) ==> bits::mem(w, s),
        forall|s: int| #[trigger] c(s) ==> bits::mem(w, s),
        forall|s: int| #[trigger] d(s) ==> bits::mem(w, s),
        forall|s: int| #[trigger] e(s) ==> bits::mem(w, s),
        forall|s: int| #[trigger]
            bits::mem(w, s) ==> f(s) == pick(a, x)(s) + pick(b, y)(s) + pick(c, z)(s) + pick(d, u)(
                s,
            ) + pick(e, v)(s),
    ensures
        sums::over(w, f) == sums::how_many(a) * x + sums::how_many(b) * y + sums::how_many(c) * z
            + sums::how_many(d) * u + sums::how_many(e) * v,
{
    let f1 = pick(a, x);
    let f2 = pick(b, y);
    let f3 = pick(c, z);
    let f4 = pick(d, u);
    let f5 = pick(e, v);
    let g2 = |s: int| f1(s) + f2(s);
    let g3 = |s: int| g2(s) + f3(s);
    let g4 = |s: int| g3(s) + f4(s);
    sums::lemma_over_flag(w, a, x, f1);
    sums::lemma_over_flag(w, b, y, f2);
    sums::lemma_over_flag(w, c, z, f3);
    sums::lemma_over_flag(w, d, u, f4);
    sums::lemma_over_flag(w, e, v, f5);
    sums::lemma_over_add(w, f1, f2, g2);
    sums::lemma_over_add(w, g2, f3, g3);
    sums::lemma_over_add(w, g3, f4, g4);
    sums::lemma_over_add(w, g4, f5, f);
}

/// A number where a property holds.
spec fn pick(p: spec_fn(int) -> bool, x: int) -> spec_fn(int) -> int {
    |s: int|
        if p(s) {
            x
        } else {
            0
        }
}

// --- the pawn structure -------------------------------------------------------------------------

/// Pawns with another pawn of their side on the same file.
pub open spec fn sharing(w: u64) -> spec_fn(int) -> bool {
    |s: int| bits::mem(w, s) && exists|t: int| #[trigger] bits::mem(w, t) && t != s && t % 8 == s % 8
}

/// Pawns without a pawn of their side on a file beside.
pub open spec fn lonely(w: u64) -> spec_fn(int) -> bool {
    |s: int| bits::mem(w, s) && !exists|t: int| #[trigger] bits::mem(w, t) && next_file(s, t)
}

/// Pawns with a pawn of their side on a file beside, on the same rank or on the one behind.
pub open spec fn joined(w: u64, c: Color) -> spec_fn(int) -> bool {
    |s: int|
        bits::mem(w, s) && exists|t: int| #[trigger]
            bits::mem(w, t) && next_file(s, t) && (t / 8 == s / 8 || t / 8 == s / 8 - ahead(c))
}

/// Pawns that a pawn of their side defends.
pub open spec fn defended(w: u64, c: Color) -> spec_fn(int) -> bool {
    |s: int| bits::mem(w, s) && guarded(w, c, s)
}

/// Pawns that no pawn of their side defends, and that cannot step forward without being
/// taken by a pawn.
pub open spec fn left_behind(w: u64, e: u64, c: Color) -> spec_fn(int) -> bool {
    |s: int|
        bits::mem(w, s) && !guarded(w, c, s) && 0 <= s + 8 * ahead(c) < 64 && guarded(
            e,
            c.opposite(),
            s + 8 * ahead(c),
        )
}

/// Files on which a group of pawns ends: there is a pawn on it and none on the next.
pub open spec fn group_ends(w: u64) -> spec_fn(int) -> bool {
    |f: int|
        (exists|s: int| #[trigger] bits::mem(w, s) && s % 8 == f) && !exists|s: int| #[trigger]
            bits::mem(w, s) && s % 8 == f + 1
}

/// The structure of a side's pawns: each doubled, isolated, connected, defended and backward
/// pawn counts its parameter once, and each group beyond the first that of the groups.
pub proof fn law_pawn_structure(b: Placement, info: PawnInfo, c: Color, p: EvalParams, f: int)
    requires
        info.describes(b),
        0 <= f < 2,
    ensures
        ({
            let w = b.pawns & b.side(c);
            let e = b.pawns & b.side(c.opposite());
            let n = sums::how_many(group_ends(w));
            pawns::half(info, c, p, f) == sums::how_many(sharing(w)) * p.doubled@[f]
                + sums::how_many(lonely(w)) * p.isolated@[f] + sums::how_many(joined(w, c))
                * p.connected@[f] + sums::how_many(defended(w, c)) * p.protected_pawn@[f]
                + sums::how_many(left_behind(w, e, c)) * p.backward@[f] + (if n >= 2 {
                (n - 1) * p.island@[f]
            } else {
                0
            })
        }),
{
    let w = b.pawns & b.side(c);
    let e = b.pawns & b.side(c.opposite());
    assert(info.pawns(c) == w && info.pawns(c.opposite()) == e);
    assert(info.sound(c) && info.sound(c.opposite()));
    let g = pawns::worth(info, c, p, f);
    assert forall|s: int| #[trigger] bits::mem(w, s) implies g(s) == pick(
        sharing(w),
        p.doubled@[f] as int,
    )(s) + pick(lonely(w), p.isolated@[f] as int)(s) + pick(
        joined(w, c),
        p.connected@[f] as int,
    )(s) + pick(defended(w, c), p.protected_pawn@[f] as int)(s) + pick(
        left_behind(w, e, c),
        p.backward@[f] as int,
    )(s) by {
        lemma_guarded(info, c, s);
        let t = s + 8 * ahead(c);
        assert(t == evaluation::front(c, s));
        if 0 <= t < 64 {
            lemma_guarded(info, c.opposite(), t);
        } else {
            lemma_off_board(info, c.opposite(), t);
        }
        lemma_doubled(w, s);
        lemma_isolated(w, s);
        lemma_connected(w, c, s);
    }
    lemma_five(
        w,
        g,
        sharing(w),
        p.doubled@[f] as int,
        lonely(w),
        p.isolated@[f] as int,
        joined(w, c),
        p.connected@[f] as int,
        defended(w, c),
        p.protected_pawn@[f] as int,
        left_behind(w, e, c),
        p.backward@[f] as int,
    );
    let files = info.files(c);
    assert forall|k: int| 0 <= k < 64 implies #[trigger] pawns::ends_run(files)(k) == group_ends(w)(
        k,
    ) by {
        assert(pawns::on(files, k) == pawns::on_file(w, k));
        assert(pawns::on(files, k + 1) == pawns::on_file(w, k + 1));
    }
    sums::lemma_how_many_same(pawns::ends_run(files), group_ends(w));
}

proof fn lemma_doubled(w: u64, s: int)
    requires
        bits::mem(w, s),
    ensures
        pawns::doubled(w, s) == sharing(w)(s),
{
}

proof fn lemma_isolated(w: u64, s: int)
    requires
        bits::mem(w, s),
    ensures
        pawns::isolated(w, s) == lonely(w)(s),
{
    if !lonely(w)(s) {
        let t = choose|t: int| #[trigger] bits::mem(w, t) && next_file(s, t);
        assert(evaluation::beside(s, t));
    }
    if !pawns::isolated(w, s) {
        let t = choose|t: int| #[trigger] bits::mem(w, t) && evaluation::beside(s, t);
        assert(next_file(s, t));
    }
}

proof fn lemma_connected(w: u64, c: Color, s: int)
    requires
        bits::mem(w, s),
    ensures
        pawns::connected(w, c, s) == joined(w, c)(s),
{
    if pawns::connected(w, c, s) {
        let t = choose|t: int| #[trigger]
            bits::mem(w, t) && evaluation::beside(s, t) && (evaluation::level(c, t)
                == evaluation::level(c, s) || evaluation::level(c, t) == evaluation::level(c, s)
                - 1);
        assert(next_file(s, t) && (t / 8 == s / 8 || t / 8 == s / 8 - ahead(c)));
    }
    if joined(w, c)(s) {
        let t = choose|t: int| #[trigger]
            bits::mem(w, t) && next_file(s, t) && (t / 8 == s / 8 || t / 8 == s / 8 - ahead(c));
        assert(evaluation::beside(s, t));
    }
}

// --- mobility -----------------------------------------------------------------------------------

/// Squares that a piece on `s` attacks and no piece of its side stands on, leaving out what
/// enemy pawns attack unless the piece is a rook or a queen.
pub open spec fn reachable(b: Placement, c: Color, role: Role, s: int) -> spec_fn(int) -> bool {
    |t: int|
        attacks::attacks(role.code_spec() as int, s, t, b.white | b.black) && !bits::mem(b.side(c), t)
            && (role == Role::Rook || role == Role::Queen || !guarded(
            b.pawns & b.side(c.opposite()),
            c.opposite(),
            t,
        ))
}

/// How many squares the pieces of a kind can go to together.
pub open spec fn freedom(b: Placement, c: Color, role: Role) -> int {
    sums::over(b.kind(role) & b.side(c), |s: int| sums::how_many(reachable(b, c, role, s)))
}

/// The mobility of a side: each square that a piece can go to counts the parameter of its
/// kind once. Pawns have none.
pub proof fn law_mobility(b: Placement, info: PawnInfo, c: Color, p: EvalParams, f: int)
    requires
        info.describes(b),
        0 <= f < 2,
    ensures
        mobility::half(b, info, c, p, f) == freedom(b, c, Role::Knight) * p.mobility@[2]@[f]
            + freedom(b, c, Role::Bishop) * p.mobility@[3]@[f] + freedom(b, c, Role::Rook)
            * p.mobility@[4]@[f] + freedom(b, c, Role::Queen) * p.mobility@[5]@[f] + freedom(
            b,
            c,
            Role::King,
        ) * p.mobility@[6]@[f],
{
    lemma_mobile(b, info, c, Role::Knight, p, f);
    lemma_mobile(b, info, c, Role::Bishop, p, f);
    lemma_mobile(b, info, c, Role::Rook, p, f);
    lemma_mobile(b, info, c, Role::Queen, p, f);
    lemma_mobile(b, info, c, Role::King, p, f);
}

proof fn lemma_mobile(b: Placement, info: PawnInfo, c: Color, role: Role, p: EvalParams, f: int)
    requires
        info.describes(b),
    ensures
        mobility::part(b, info, c, role, p, f) == freedom(b, c, role)
            * p.mobility@[role.code_spec() as int]@[f],
{
    let w = b.kind(role) & b.side(c);
    let x = p.mobility@[role.code_spec() as int]@[f] as int;
    let g = mobility::worth(b, info, c, role, p, f);
    let h = |s: int| sums::how_many(reachable(b, c, role, s));
    assert forall|s: int| 0 <= s < 64 implies #[trigger] sums::masked(w, g)(s) == sums::masked(
        w,
        h,
    )(s) * x by {
        assert(0 * x == 0) by (nonlinear_arith);
        let u = mobility::usable(b, info, c, role, s);
        assert forall|t: int| 0 <= t < 64 implies #[trigger] u(t) == reachable(b, c, role, s)(t) by {
            assert(info.sound(c.opposite()));
            lemma_guarded(info, c.opposite(), t);
        }
        sums::lemma_how_many_same(u, reachable(b, c, role, s));
    }
    sums::lemma_ranged_scale(64, sums::masked(w, h), x, sums::masked(w, g));
}

// --- passed pawns ---------------------------------------------------------------------------------

/// Pawns of `w` ahead of which no pawn of `e` stands, on their file or on one beside.
pub open spec fn free_to_run(w: u64, e: u64, c: Color) -> spec_fn(int) -> bool {
    |s: int|
        bits::mem(w, s) && !exists|t: int| #[trigger]
            bits::mem(e, t) && (t % 8 == s % 8 || next_file(s, t)) && gone(c, s, t) > 0
}

/// The passed pawns of a side are its pawns that no enemy pawn can stop.
pub proof fn law_passed_pawns(b: Placement, info: PawnInfo, passed: PassedInfo, c: Color, s: int)
    requires
        info.describes(b),
        passed.describes(info),
    ensures
        bits::mem(passed.set(c), s) == free_to_run(
            b.pawns & b.side(c),
            b.pawns & b.side(c.opposite()),
            c,
        )(s),
{
    let w = b.pawns & b.side(c);
    let e = b.pawns & b.side(c.opposite());
    assert(info.pawns(c) == w && info.pawns(c.opposite()) == e);
    assert(passed.sound(info, c));
    assert(bits::mem(passed.set(c), s) == (bits::mem(w, s) && passed_pawns::passed(e, c, s)));
    if bits::mem(w, s) {
        lemma_free(w, e, c, s);
    }
}

/// Passed pawns with another passed pawn on the next file, at most one rank away.
pub open spec fn paired_up(w: u64) -> spec_fn(int) -> bool {
    |s: int|
        bits::mem(w, s) && exists|t: int| #[trigger]
            bits::mem(w, t) && t % 8 == s % 8 + 1 && -1 <= t / 8 - s / 8 <= 1
}

/// Passed pawns that a pawn of their side defends.
pub open spec fn passed_defended(w: u64, all: u64, c: Color) -> spec_fn(int) -> bool {
    |s: int| bits::mem(w, s) && guarded(all, c, s)
}

/// The passed pawns of a side: each counts the bonus of its rank, and those that are defended
/// or go side by side count more.
pub proof fn law_passed_pawns_count(
    b: Placement,
    info: PawnInfo,
    passed: PassedInfo,
    c: Color,
    p: EvalParams,
    f: int,
)
    requires
        info.describes(b),
        0 <= f < 2,
    ensures
        ({
            let w = passed.set(c);
            let all = b.pawns & b.side(c);
            passed_pawns::half(b, info, passed, c, p, f) == sums::over(
                w,
                |s: int| passed_pawns::rank_bonus(b, c, p, f, s),
            ) + sums::how_many(passed_defended(w, all, c)) * p.protected_passed@[f]
                + sums::how_many(paired_up(w)) * p.connected_passed@[f]
        }),
{
    let w = passed.set(c);
    let all = b.pawns & b.side(c);
    let g = passed_pawns::worth(b, info, w, c, p, f);
    let r = |s: int| passed_pawns::rank_bonus(b, c, p, f, s);
    let x = p.protected_passed@[f] as int;
    let y = p.connected_passed@[f] as int;
    let h1 = pick(passed_defended(w, all, c), x);
    let h2 = pick(paired_up(w), y);
    let k = |s: int| r(s) + h1(s);
    assert(info.pawns(c) == all && info.sound(c));
    assert forall|s: int| #[trigger] bits::mem(w, s) implies g(s) == k(s) + h2(s) by {
        lemma_guarded(info, c, s);
        assert(passed_pawns::supported(w, s) == paired_up(w)(s));
    }
    sums::lemma_over_add(w, r, h1, k);
    sums::lemma_over_add(w, k, h2, g);
    sums::lemma_over_flag(w, passed_defended(w, all, c), x, h1);
    sums::lemma_over_flag(w, paired_up(w), y, h2);
}

/// How many king's steps two squares are apart: no coordinate differs by more, and one by as
/// much.
pub open spec fn steps(a: int, b: int, n: int) -> bool {
    &&& -n <= a % 8 - b % 8 <= n
    &&& -n <= a / 8 - b / 8 <= n
    &&& a % 8 - b % 8 == n || b % 8 - a % 8 == n || a / 8 - b / 8 == n || b / 8 - a / 8 == n
}

/// The bonus of a passed pawn goes by how far it has come from its first rank. In the endgame
/// it is a quarter more where its own king is nearer to the square on which it promotes, and a
/// quarter less where the enemy's king is.
pub proof fn law_passed_pawn_ranks(
    b: Placement,
    c: Color,
    p: EvalParams,
    s: int,
    ours: int,
    theirs: int,
    x: int,
    y: int,
)
    requires
        8 <= s < 56,
        b.king_sq(c) == ours,
        b.king_sq(c.opposite()) == theirs,
        0 <= ours < 64,
        0 <= theirs < 64,
        ({
            let goal = if c == Color::White {
                56 + s % 8
            } else {
                s % 8
            };
            steps(ours, goal, x) && steps(theirs, goal, y)
        }),
    ensures
        ({
            let rank = if c == Color::White {
                s / 8
            } else {
                7 - s / 8
            };
            let mg = p.passed_bonus@[rank - 1]@[0] as int;
            let eg = p.passed_bonus@[rank - 1]@[1] as int;
            &&& passed_pawns::rank_bonus(b, c, p, 0, s) == mg
            &&& x == y ==> passed_pawns::rank_bonus(b, c, p, 1, s) == eg
            &&& x < y ==> 4 * passed_pawns::rank_bonus(b, c, p, 1, s) <= 5 * eg + 3 && 5 * eg - 3
                <= 4 * passed_pawns::rank_bonus(b, c, p, 1, s)
            &&& x > y ==> 4 * passed_pawns::rank_bonus(b, c, p, 1, s) <= 3 * eg + 3 && 3 * eg - 3
                <= 4 * passed_pawns::rank_bonus(b, c, p, 1, s)
        }),
{
    let goal = passed_pawns::promotion_square(c, s);
    assert(evaluation::distance(ours, goal) == x);
    assert(evaluation::distance(theirs, goal) == y);
}

// --- threats, rooks and space -----------------------------------------------------------------------

/// Enemy pieces other than pawns that a pawn of the side attacks.
pub open spec fn pawn_targets(b: Placement, c: Color) -> spec_fn(int) -> bool {
    |t: int|
        bits::mem(b.side(c.opposite()), t) && !bits::mem(b.pawns, t) && guarded(
            b.pawns & b.side(c),
            c,
            t,
        )
}

/// Knights and bishops of the side that an enemy pawn attacks.
pub open spec fn harried_minors(b: Placement, c: Color) -> spec_fn(int) -> bool {
    |t: int|
        bits::mem(b.side(c), t) && (bits::mem(b.knights, t) || bits::mem(b.bishops, t)) && guarded(
            b.pawns & b.side(c.opposite()),
            c.opposite(),
            t,
        )
}

/// A side's threats: the attacks of its pawns on pieces count their bonus, its own knights and
/// bishops under attack by pawns count theirs, and to that comes what hangs. In the endgame
/// all of it counts half.
pub proof fn law_threats(b: Placement, info: PawnInfo, c: Color, p: EvalParams)
    requires
        info.describes(b),
    ensures
        threats::half(b, info, c, p, 0) == sums::how_many(pawn_targets(b, c)) * p.pawn_attack_bonus
            + sums::how_many(harried_minors(b, c)) * p.weak_minor + sums::ranged(
            64,
            threats::loot(b, info, c, p),
        ),
        ({
            let mg = threats::half(b, info, c, p, 0);
            let eg = threats::half(b, info, c, p, 1);
            &&& mg >= 0 ==> 0 <= mg - 2 * eg <= 1
            &&& mg <= 0 ==> -1 <= mg - 2 * eg <= 0
        }),
{
    broadcast use bits::group_mem;

    assert(info.sound(c) && info.sound(c.opposite()));
    let u = threats::forked(b, info, c);
    assert forall|t: int| 0 <= t < 64 implies #[trigger] u(t) == pawn_targets(b, c)(t) by {
        lemma_guarded(info, c, t);
    }
    sums::lemma_how_many_same(u, pawn_targets(b, c));
    let v = threats::weak(b, info, c);
    assert forall|t: int| 0 <= t < 64 implies #[trigger] v(t) == harried_minors(b, c)(t) by {
        lemma_guarded(info, c.opposite(), t);
    }
    sums::lemma_how_many_same(v, harried_minors(b, c));
}

/// A piece of the side attacks `t`.
pub open spec fn hits(b: Placement, c: Color, t: int) -> bool {
    guarded(b.pawns & b.side(c), c, t) || exists|role: Role, s: int|
        role != Role::Pawn && bits::mem(b.kind(role) & b.side(c), s) && #[trigger] attacks::attacks(
            role.code_spec() as int,
            s,
            t,
            b.white | b.black,
        )
}

/// What hangs: an enemy piece other than the king that is attacked and that nobody defends is
/// worth three fortieths of its value to the side that attacks it; a piece that is not attacked,
/// or that is defended, is worth nothing.
pub proof fn law_hanging_pieces(
    b: Placement,
    info: PawnInfo,
    c: Color,
    p: EvalParams,
    t: int,
    role: Role,
)
    requires
        b.wf(),
        info.describes(b),
        0 <= t < 64,
        b.role_on(t) == Some(role),
        params::value_of(p, role) >= 0,
    ensures
        ({
            let d = c.opposite();
            let v = threats::loot(b, info, c, p)(t);
            let hung = bits::mem(b.side(d), t) && role != Role::King && hits(b, c, t) && !hits(b, d, t);
            &&& hung ==> 0 <= 3 * params::value_of(p, role) - 40 * v < 40
            &&& !hung ==> v == 0
        }),
{
    broadcast use bits::group_mem;

    let d = c.opposite();
    assert(b.role_code(t) == b.role_code(t));
    lemma_hits(b, info, c, t);
    lemma_hits(b, info, d, t);
    assert(bits::mem(evaluation::word(b, d, Role::King), t) == (bits::mem(b.side(d), t) && role
        == Role::King));
}

proof fn lemma_hits(b: Placement, info: PawnInfo, c: Color, t: int)
    requires
        b.wf(),
        info.describes(b),
        0 <= t < 64,
    ensures
        threats::attacked(b, info, c, t) == hits(b, c, t),
        threats::home(b, c) == b.king_sq(c),
{
    broadcast use bits::group_mem;

    let occ = b.white | b.black;
    assert(info.sound(c));
    lemma_guarded(info, c, t);
    lemma_one_king(b, c);
    let k = b.king_sq(c);
    if threats::attacked(b, info, c, t) && !guarded(b.pawns & b.side(c), c, t) {
        if geometry::king_step(k, t) {
            assert(attacks::attacks(Role::King.code_spec() as int, k, t, occ));
        } else if mobility::hit_by(b, c, Role::Knight, t) {
            let s = choose|s: int|
                bits::mem(evaluation::word(b, c, Role::Knight), s) && #[trigger] mobility::aims(
                    b,
                    Role::Knight,
                    s,
                    t,
                );
            assert(attacks::attacks(Role::Knight.code_spec() as int, s, t, occ));
        } else if mobility::hit_by(b, c, Role::Bishop, t) {
            let s = choose|s: int|
                bits::mem(evaluation::word(b, c, Role::Bishop), s) && #[trigger] mobility::aims(
                    b,
                    Role::Bishop,
                    s,
                    t,
                );
            assert(attacks::attacks(Role::Bishop.code_spec() as int, s, t, occ));
        } else if mobility::hit_by(b, c, Role::Rook, t) {
            let s = choose|s: int|
                bits::mem(evaluation::word(b, c, Role::Rook), s) && #[trigger] mobility::aims(
                    b,
                    Role::Rook,
                    s,
                    t,
                );
            assert(attacks::attacks(Role::Rook.code_spec() as int, s, t, occ));
        } else {
            let s = choose|s: int|
                bits::mem(evaluation::word(b, c, Role::Queen), s) && #[trigger] mobility::aims(
                    b,
                    Role::Queen,
                    s,
                    t,
                );
            assert(attacks::attacks(Role::Queen.code_spec() as int, s, t, occ));
        }
    }
    if hits(b, c, t) && !guarded(b.pawns & b.side(c), c, t) {
        let (role, s) = choose|role: Role, s: int|
            role != Role::Pawn && bits::mem(b.kind(role) & b.side(c), s)
                && #[trigger] attacks::attacks(role.code_spec() as int, s, t, occ);
        if role == Role::King {
            assert(s == k);
        } else {
            assert(mobility::aims(b, role, s, t));
        }
    }
}

proof fn lemma_one_king(b: Placement, c: Color)
    requires
        b.wf(),
    ensures
        0 <= b.king_sq(c) < 64,
        bits::mem(b.kings & b.side(c), b.king_sq(c)),
        forall|s: int| #[trigger] bits::mem(b.kings & b.side(c), s) ==> s == b.king_sq(c),
{
    let w = b.kings & b.side(c);
    assert(w != 0) by {
        assert(bits::ones(0u64) == 0);
    }
    bits::lemma_lsb(w);
    let k = bits::lsb(w);
    assert forall|s: int| #[trigger] bits::mem(w, s) implies s == k by {
        bits::lemma_ones_another(w, k);
    }
}

/// A file with no pawn of `w`.
pub open spec fn clear_file(w: u64, f: int) -> bool {
    !exists|t: int| #[trigger] bits::mem(w, t) && t % 8 == f
}

/// Rooks on a file without pawns.
pub open spec fn on_open_file(b: Placement, c: Color) -> spec_fn(int) -> bool {
    |s: int|
        bits::mem(b.rooks & b.side(c), s) && clear_file(b.pawns & b.white, s % 8) && clear_file(
            b.pawns & b.black,
            s % 8,
        )
}

/// Rooks on a file with pawns of the enemy alone.
pub open spec fn on_half_open_file(b: Placement, c: Color) -> spec_fn(int) -> bool {
    |s: int|
        bits::mem(b.rooks & b.side(c), s) && clear_file(b.pawns & b.side(c), s % 8) && !clear_file(
            b.pawns & b.side(c.opposite()),
            s % 8,
        )
}

/// Rooks on the enemy's second rank, on a file without an enemy rook.
pub open spec fn on_seventh(b: Placement, c: Color) -> spec_fn(int) -> bool {
    |s: int|
        bits::mem(b.rooks & b.side(c), s) && s / 8 == (if c == Color::White {
            6int
        } else {
            1
        }) && clear_file(b.rooks & b.side(c.opposite()), s % 8)
}

/// The files and ranks of a side's rooks: each rook on an open file, on a half-open one and on
/// the seventh rank counts its parameter once.
pub proof fn law_rooks(b: Placement, info: PawnInfo, c: Color, p: EvalParams, f: int)
    requires
        info.describes(b),
        0 <= f < 2,
    ensures
        threats::rook_half(b, info, c, p, f) == sums::how_many(on_open_file(b, c)) * p.rook_open@[f]
            + sums::how_many(on_half_open_file(b, c)) * p.rook_semi_open@[f] + sums::how_many(
            on_seventh(b, c),
        ) * p.rook_seventh@[f],
{
    let w = b.rooks & b.side(c);
    let g = threats::rook_worth(b, info, c, p, f);
    let none = |s: int| false;
    let h1 = pick(on_open_file(b, c), p.rook_open@[f] as int);
    let h2 = pick(on_half_open_file(b, c), p.rook_semi_open@[f] as int);
    let h3 = pick(on_seventh(b, c), p.rook_seventh@[f] as int);
    let k = |s: int| h1(s) + h2(s);
    assert forall|s: int| #[trigger] bits::mem(w, s) implies g(s) == k(s) + h3(s) by {
        let file = s % 8;
        assert(pawns::on_file(info.white, file) == !clear_file(b.pawns & b.white, file));
        assert(pawns::on_file(info.black, file) == !clear_file(b.pawns & b.black, file));
        assert(pawns::on_file(evaluation::word(b, c.opposite(), Role::Rook), file) == !clear_file(
            b.rooks & b.side(c.opposite()),
            file,
        ));
    }
    sums::lemma_over_add(w, h1, h2, k);
    sums::lemma_over_add(w, k, h3, g);
    sums::lemma_over_flag(w, on_open_file(b, c), p.rook_open@[f] as int, h1);
    sums::lemma_over_flag(w, on_half_open_file(b, c), p.rook_semi_open@[f] as int, h2);
    sums::lemma_over_flag(w, on_seventh(b, c), p.rook_seventh@[f] as int, h3);
}

/// Pawns that gain space: on the fifth rank of their side, or on the fourth where no enemy
/// pawn attacks them.
pub open spec fn gaining(b: Placement, c: Color) -> spec_fn(int) -> bool {
    |s: int|
        bits::mem(b.pawns & b.side(c), s) && ({
            let rank = if c == Color::White {
                s / 8
            } else {
                7 - s / 8
            };
            rank == 4 || rank == 3 && !guarded(
                b.pawns & b.side(c.opposite()),
                c.opposite(),
                s,
            )
        })
}

/// Space: the side with more pawns that gain space has the better of it, each pawn counts once,
/// and it counts at most 48 either way.
pub proof fn law_space(b: Placement, info: PawnInfo, x: int)
    requires
        info.describes(b),
    ensures
        ({
            let more = sums::how_many(gaining(b, Color::White)) - sums::how_many(
                gaining(b, Color::Black),
            );
            &&& -48 <= threats::space(info, x) <= 48
            &&& -48 <= more * x <= 48 ==> threats::space(info, x) == more * x
            &&& more * x > 48 ==> threats::space(info, x) == 48
            &&& more * x < -48 ==> threats::space(info, x) == -48
        }),
{
    lemma_gaining(b, info, Color::White);
    lemma_gaining(b, info, Color::Black);
}

proof fn lemma_gaining(b: Placement, info: PawnInfo, c: Color)
    requires
        info.describes(b),
    ensures
        sums::how_many(threats::advanced(info, c)) == sums::how_many(gaining(b, c)),
{
    let u = threats::advanced(info, c);
    assert(info.sound(c.opposite()));
    assert forall|s: int| 0 <= s < 64 implies #[trigger] u(s) == gaining(b, c)(s) by {
        lemma_guarded(info, c.opposite(), s);
        if evaluation::level(c, s) == 3 || evaluation::level(c, s) == 4 {
            let t = s + 8 * ahead(c) + (if s % 8 > 0 {
                -1int
            } else {
                1
            });
            assert(geometry::pawn_step(c.index(), s, t));
            assert(threats::presses(c, s));
        }
    }
    sums::lemma_how_many_same(u, gaining(b, c));
}

// --- the activity of pieces -----------------------------------------------------------------------

/// The rank of a square as a side counts it, from 0.
pub open spec fn rank_for(c: Color, s: int) -> int {
    if c == Color::White {
        s / 8
    } else {
        7 - s / 8
    }
}

/// Pieces of a kind on the fifth or sixth rank of their side that a pawn defends and none
/// attacks.
pub open spec fn outposts(b: Placement, c: Color, role: Role) -> spec_fn(int) -> bool {
    |s: int|
        bits::mem(b.kind(role) & b.side(c), s) && guarded(b.pawns & b.side(c), c, s) && !guarded(
            b.pawns & b.side(c.opposite()),
            c.opposite(),
            s,
        ) && (rank_for(c, s) == 4 || rank_for(c, s) == 5)
}

/// Knights and bishops on the squares on which they begin.
pub open spec fn at_home(b: Placement, c: Color) -> spec_fn(int) -> bool {
    |s: int|
        bits::mem(b.side(c), s) && (bits::mem(b.knights, s) || bits::mem(b.bishops, s)) && rank_for(
            c,
            s,
        ) == 0 && (s % 8 == 1 || s % 8 == 2 || s % 8 == 5 || s % 8 == 6)
}

/// A knight and a bishop have both left the squares of their kind.
pub open spec fn minors_out(b: Placement, c: Color) -> bool {
    &&& exists|s: int| #[trigger]
        bits::mem(b.knights & b.side(c), s) && !(rank_for(c, s) == 0 && (s % 8 == 1 || s % 8 == 6))
    &&& exists|s: int| #[trigger]
        bits::mem(b.bishops & b.side(c), s) && !(rank_for(c, s) == 0 && (s % 8 == 2 || s % 8 == 5))
}

/// A pawn of `w` is further forward on the file of `s`.
pub open spec fn in_front(w: u64, c: Color, s: int) -> bool {
    exists|t: int| #[trigger]
        bits::mem(w, t) && t % 8 == s % 8 && gone(c, s, t) > 0
}

/// Rooks behind a passed pawn of either side, as the pawn runs.
pub open spec fn rooks_behind(b: Placement, passed: PassedInfo, c: Color) -> spec_fn(int) -> bool {
    |s: int|
        bits::mem(b.rooks & b.side(c), s) && (in_front(passed.set(c), c, s) || in_front(
            passed.set(c.opposite()),
            c.opposite(),
            s,
        ))
}

/// Queens behind a passed pawn of their own.
pub open spec fn queens_behind(b: Placement, passed: PassedInfo, c: Color) -> spec_fn(int) -> bool {
    |s: int| bits::mem(b.queens & b.side(c), s) && in_front(passed.set(c), c, s)
}

/// Queens that an enemy pawn attacks.
pub open spec fn queens_harried(b: Placement, c: Color) -> spec_fn(int) -> bool {
    |s: int|
        bits::mem(b.queens & b.side(c), s) && guarded(
            b.pawns & b.side(c.opposite()),
            c.opposite(),
            s,
        )
}

/// The activity of a side's pieces: each thing of note counts its parameter once, bishops as
/// often as pawns hem them in, and pieces at home only while the game is young.
pub proof fn law_piece_activity(
    b: Placement,
    info: PawnInfo,
    passed: PassedInfo,
    c: Color,
    phase: int,
    p: EvalParams,
    f: int,
)
    requires
        info.describes(b),
        0 <= f < 2,
    ensures
        activity::half(b, info, passed, c, phase, p, f) == sums::how_many(
            outposts(b, c, Role::Knight),
        ) * p.knight_outpost@[f] + sums::how_many(outposts(b, c, Role::Bishop))
            * p.bishop_outpost@[f] + sums::over(
            b.bishops & b.side(c),
            |s: int| activity::excess(info, c, p, s),
        ) * p.bad_bishop_pawn@[f] + (if phase >= p.development_phase {
            sums::how_many(at_home(b, c)) * p.undeveloped@[f]
        } else {
            0
        }) + (if minors_out(b, c) {
            p.minor_coordination@[f] as int
        } else {
            0
        }) + (if activity::rooks_together(b, c) {
            p.rooks_connected@[f] as int
        } else {
            0
        }) + sums::how_many(rooks_behind(b, passed, c)) * p.rook_behind_passed@[f] + sums::how_many(
            queens_behind(b, passed, c),
        ) * p.queen_behind_passed@[f] + sums::how_many(queens_harried(b, c))
            * p.queen_under_pawn_attack@[f],
{
    lemma_outposts(b, info, c, Role::Knight);
    lemma_outposts(b, info, c, Role::Bishop);
    lemma_bishops(b, info, c, p, f);
    lemma_at_home(b, c);
    lemma_behind(b, passed, c);
    let u = activity::queen_hunted(b, info, c);
    assert(info.sound(c.opposite()));
    assert forall|s: int| 0 <= s < 64 implies #[trigger] u(s) == queens_harried(b, c)(s) by {
        lemma_guarded(info, c.opposite(), s);
    }
    sums::lemma_how_many_same(u, queens_harried(b, c));
}

proof fn lemma_outposts(b: Placement, info: PawnInfo, c: Color, role: Role)
    requires
        info.describes(b),
    ensures
        sums::how_many(activity::outpost(b, info, c, role)) == sums::how_many(outposts(b, c, role)),
{
    let u = activity::outpost(b, info, c, role);
    assert(info.sound(c) && info.sound(c.opposite()));
    assert forall|s: int| 0 <= s < 64 implies #[trigger] u(s) == outposts(b, c, role)(s) by {
        lemma_guarded(info, c, s);
        lemma_guarded(info, c.opposite(), s);
    }
    sums::lemma_how_many_same(u, outposts(b, c, role));
}

proof fn lemma_bishops(b: Placement, info: PawnInfo, c: Color, p: EvalParams, f: int)
    ensures
        activity::bad_bishops(b, info, c, p, f) == sums::over(
            b.bishops & b.side(c),
            |s: int| activity::excess(info, c, p, s),
        ) * p.bad_bishop_pawn@[f],
{
    let w = b.bishops & b.side(c);
    let x = p.bad_bishop_pawn@[f] as int;
    let g = activity::hemmed(info, c, p, f);
    let h = |s: int| activity::excess(info, c, p, s);
    assert forall|s: int| 0 <= s < 64 implies #[trigger] sums::masked(w, g)(s) == sums::masked(
        w,
        h,
    )(s) * x by {
        assert(0 * x == 0) by (nonlinear_arith);
    }
    sums::lemma_ranged_scale(64, sums::masked(w, h), x, sums::masked(w, g));
}

proof fn lemma_at_home(b: Placement, c: Color)
    ensures
        sums::how_many(activity::undeveloped(b, c)) == sums::how_many(at_home(b, c)),
        activity::coordinated(b, c) == minors_out(b, c),
{
    broadcast use bits::group_mem;

    let u = activity::undeveloped(b, c);
    assert forall|s: int| 0 <= s < 64 implies #[trigger] u(s) == at_home(b, c)(s) by {}
    sums::lemma_how_many_same(u, at_home(b, c));
    let n = b.knights & b.side(c);
    let i = b.bishops & b.side(c);
    if activity::out(b, c, Role::Knight, 1, 6) {
        let s = choose|s: int| #[trigger]
            bits::mem(n, s) && !(evaluation::level(c, s) == 0 && (s % 8 == 1 || s % 8 == 6));
        assert(!(rank_for(c, s) == 0 && (s % 8 == 1 || s % 8 == 6)));
    }
    if activity::out(b, c, Role::Bishop, 2, 5) {
        let s = choose|s: int| #[trigger]
            bits::mem(i, s) && !(evaluation::level(c, s) == 0 && (s % 8 == 2 || s % 8 == 5));
        assert(!(rank_for(c, s) == 0 && (s % 8 == 2 || s % 8 == 5)));
    }
    if minors_out(b, c) {
        let s = choose|s: int| #[trigger]
            bits::mem(n, s) && !(rank_for(c, s) == 0 && (s % 8 == 1 || s % 8 == 6));
        assert(!(evaluation::level(c, s) == 0 && (s % 8 == 1 || s % 8 == 6)));
        let t = choose|t: int| #[trigger]
            bits::mem(i, t) && !(rank_for(c, t) == 0 && (t % 8 == 2 || t % 8 == 5));
        assert(!(evaluation::level(c, t) == 0 && (t % 8 == 2 || t % 8 == 5)));
    }
}

proof fn lemma_in_front(w: u64, c: Color, s: int)
    requires
        0 <= s < 64,
    ensures
        activity::ahead(w, c, s) == in_front(w, c, s),
{
    if activity::ahead(w, c, s) {
        let t = choose|t: int| #[trigger]
            bits::mem(w, t) && t % 8 == s % 8 && evaluation::level(c, t) > evaluation::level(c, s);
        assert(gone(c, s, t) > 0);
    }
    if in_front(w, c, s) {
        let t = choose|t: int| #[trigger]
            bits::mem(w, t) && t % 8 == s % 8 && gone(c, s, t) > 0;
        assert(evaluation::level(c, t) > evaluation::level(c, s));
    }
}

proof fn lemma_behind(b: Placement, passed: PassedInfo, c: Color)
    ensures
        sums::how_many(activity::rook_behind(b, passed, c)) == sums::how_many(
            rooks_behind(b, passed, c),
        ),
        sums::how_many(activity::queen_behind(b, passed, c)) == sums::how_many(
            queens_behind(b, passed, c),
        ),
{
    let u = activity::rook_behind(b, passed, c);
    assert forall|s: int| 0 <= s < 64 implies #[trigger] u(s) == rooks_behind(b, passed, c)(s) by {
        lemma_in_front(passed.set(c), c, s);
        lemma_in_front(passed.set(c.opposite()), c.opposite(), s);
    }
    sums::lemma_how_many_same(u, rooks_behind(b, passed, c));
    let v = activity::queen_behind(b, passed, c);
    assert forall|s: int| 0 <= s < 64 implies #[trigger] v(s) == queens_behind(b, passed, c)(s) by {
        lemma_in_front(passed.set(c), c, s);
    }
    sums::lemma_how_many_same(v, queens_behind(b, passed, c));
}

/// Pawns of a side on squares of the other colour than `s`.
pub open spec fn across(w: u64, s: int) -> spec_fn(int) -> bool {
    |t: int| bits::mem(w, t) && (t % 8 + t / 8 + s % 8 + s / 8) % 2 == 1
}

/// How far a bishop is hemmed in: one pawn does not count, and no more count than the cap.
pub proof fn law_hemmed_bishops(b: Placement, info: PawnInfo, c: Color, p: EvalParams, s: int)
    requires
        info.describes(b),
        0 <= s < 64,
        0 <= p.bad_bishop_cap,
    ensures
        ({
            let n = sums::how_many(across(b.pawns & b.side(c), s));
            let e = activity::excess(info, c, p, s);
            &&& 0 <= e <= p.bad_bishop_cap
            &&& n <= 1 ==> e == 0
            &&& 1 <= n <= p.bad_bishop_cap + 1 ==> e == n - 1
            &&& n > p.bad_bishop_cap ==> e == p.bad_bishop_cap
        }),
{
    let w = b.pawns & b.side(c);
    let u = activity::hemming(info, c, s);
    assert(info.pawns(c) == w);
    assert forall|t: int| 0 <= t < 64 implies #[trigger] u(t) == across(w, s)(t) by {}
    sums::lemma_how_many_same(u, across(w, s));
}

/// Two rooks are connected where they stand on one rank with nothing between them.
pub proof fn law_connected_rooks(b: Placement, c: Color, s: int, t: int)
    requires
        bits::ones(b.rooks & b.side(c)) == 2,
        bits::mem(b.rooks & b.side(c), s),
        bits::mem(b.rooks & b.side(c), t),
        s < t,
    ensures
        activity::rooks_together(b, c) <==> s / 8 == t / 8 && geometry::clear(
            s,
            t,
            b.white | b.black,
        ),
{
    let w = b.rooks & b.side(c);
    if activity::rooks_together(b, c) {
        let (q, r) = choose|q: int, r: int|
            #![trigger geometry::clear(q, r, b.white | b.black)]
            bits::mem(w, q) && bits::mem(w, r) && q < r && q / 8 == r / 8 && geometry::clear(
                q,
                r,
                b.white | b.black,
            );
        lemma_two(w, s, t, q);
        lemma_two(w, s, t, r);
    }
}

proof fn lemma_two(w: u64, s: int, t: int, q: int)
    requires
        bits::ones(w) == 2,
        bits::mem(w, s),
        bits::mem(w, t),
        s != t,
        bits::mem(w, q),
    ensures
        q == s || q == t,
{
    broadcast use bits::group_mem;

    if q != s && q != t {
        let v = w & !(1u64 << (q as u64));
        bits::lemma_ones_insert(v, w, q);
        assert(bits::mem(v, s) && bits::mem(v, t));
        bits::lemma_ones_another(v, s);
    }
}

// --- kings ------------------------------------------------------------------------------------------

/// Pawns of a side `d` ranks in front of its king, on its file or on one beside.
pub open spec fn in_shield(w: u64, c: Color, k: int, d: int) -> spec_fn(int) -> bool {
    |t: int|
        bits::mem(w, t) && gone(c, k, t) == d && -1 <= t % 8 - k % 8 <= 1
}

/// The pawns in front of a king: each counts by how many ranks it is away, and together they
/// count no more than the cap.
pub proof fn law_shield(b: Placement, info: PawnInfo, c: Color, k: int, p: EvalParams)
    requires
        info.describes(b),
        0 <= k < 64,
    ensures
        ({
            let w = b.pawns & b.side(c);
            let all = sums::how_many(in_shield(w, c, k, 1)) * p.shield_weight@[0] + sums::how_many(
                in_shield(w, c, k, 2),
            ) * p.shield_weight@[1] + sums::how_many(in_shield(w, c, k, 3)) * p.shield_weight@[2];
            &&& all <= p.shield_cap ==> king::shield(info, c, k, p) == all
            &&& all >= p.shield_cap ==> king::shield(info, c, k, p) == p.shield_cap
        }),
{
    lemma_in_shield(b, info, c, k, 1);
    lemma_in_shield(b, info, c, k, 2);
    lemma_in_shield(b, info, c, k, 3);
}

proof fn lemma_in_shield(b: Placement, info: PawnInfo, c: Color, k: int, d: int)
    requires
        info.describes(b),
        0 <= k < 64,
    ensures
        sums::how_many(king::covers(info, c, k, d)) == sums::how_many(
            in_shield(b.pawns & b.side(c), c, k, d),
        ),
{
    let w = b.pawns & b.side(c);
    assert(info.pawns(c) == w);
    let u = king::covers(info, c, k, d);
    assert forall|t: int| 0 <= t < 64 implies #[trigger] u(t) == in_shield(w, c, k, d)(t) by {}
    sums::lemma_how_many_same(u, in_shield(w, c, k, d));
}

/// A file costs a king nothing where a pawn of its own stands on it; otherwise it costs the
/// parameter of open files, and that of fully open ones as well where no pawn stands on it at
/// all.
pub proof fn law_open_files(b: Placement, info: PawnInfo, c: Color, f: int, p: EvalParams)
    requires
        info.describes(b),
        0 <= f < 8,
    ensures
        ({
            let w = b.pawns & b.side(c);
            let e = b.pawns & b.side(c.opposite());
            &&& !clear_file(w, f) ==> king::file_cost(info, c, f, p) == 0
            &&& clear_file(w, f) && !clear_file(e, f) ==> king::file_cost(info, c, f, p)
                == p.king_open_file
            &&& clear_file(w, f) && clear_file(e, f) ==> king::file_cost(info, c, f, p)
                == p.king_open_file + p.king_fully_open_file
        }),
        king::file_cost(info, c, -1, p) == 0,
        king::file_cost(info, c, 8, p) == 0,
{
    assert(info.sound(Color::White) && info.sound(Color::Black));
    assert(pawns::on(info.files(Color::White), f) == pawns::on_file(info.white, f));
    assert(pawns::on(info.files(Color::Black), f) == pawns::on_file(info.black, f));
}

/// The files at a king are its own and those beside it; they cost no more than the cap.
pub proof fn law_files_at_the_king(info: PawnInfo, c: Color, k: int, p: EvalParams)
    ensures
        ({
            let all = king::file_cost(info, c, k % 8 - 1, p) + king::file_cost(info, c, k % 8, p)
                + king::file_cost(info, c, k % 8 + 1, p);
            &&& all <= p.king_open_files_cap ==> king::open_files(info, c, k, p) == all
            &&& all >= p.king_open_files_cap ==> king::open_files(info, c, k, p)
                == p.king_open_files_cap
        }),
{
}

/// The squares around a king: its own file and those beside it, from the rank behind it to two
/// ranks ahead. Its own square is left out where it stands on its first rank.
pub proof fn law_ring(c: Color, k: int, t: int)
    requires
        0 <= k < 64,
        0 <= t < 64,
    ensures
        king::in_ring(c, k, t) <==> -1 <= t % 8 - k % 8 <= 1 && -1 <= gone(c, k, t)
            <= 2 && !(t == k && rank_for(c, k) == 0),
{
    let q = evaluation::front(c.opposite(), t);
    assert(q == t - 8 * ahead(c));
}

/// Squares around a king that an enemy pawn attacks and no own pawn defends.
pub open spec fn soft_spots(b: Placement, c: Color, k: int) -> spec_fn(int) -> bool {
    |t: int|
        king::in_ring(c, k, t) && guarded(b.pawns & b.side(c.opposite()), c.opposite(), t)
            && !guarded(b.pawns & b.side(c), c, t)
}

/// Each hole at a king costs the parameter of holes, and together they cost no more than the
/// cap.
pub proof fn law_holes(b: Placement, info: PawnInfo, c: Color, k: int, p: EvalParams)
    requires
        info.describes(b),
        0 <= k < 64,
    ensures
        ({
            let all = sums::how_many(soft_spots(b, c, k)) * p.king_hole;
            &&& all <= p.king_holes_cap ==> king::holes(info, c, k, p) == all
            &&& all >= p.king_holes_cap ==> king::holes(info, c, k, p) == p.king_holes_cap
        }),
{
    let u = king::hole(info, c, k);
    assert(info.sound(c) && info.sound(c.opposite()));
    assert forall|t: int| 0 <= t < 64 implies #[trigger] u(t) == soft_spots(b, c, k)(t) by {
        lemma_guarded(info, c, t);
        lemma_guarded(info, c.opposite(), t);
    }
    sums::lemma_how_many_same(u, soft_spots(b, c, k));
}

/// Squares around a king that the enemy's pieces of a kind attack.
pub open spec fn under_fire(b: Placement, c: Color, k: int, role: Role) -> spec_fn(int) -> bool {
    |t: int|
        king::in_ring(c, k, t) && (if role == Role::Pawn {
            guarded(b.pawns & b.side(c.opposite()), c.opposite(), t)
        } else {
            exists|s: int|
                bits::mem(b.kind(role) & b.side(c.opposite()), s) && #[trigger] attacks::attacks(
                    role.code_spec() as int,
                    s,
                    t,
                    b.white | b.black,
                )
        })
}

/// What attacks on the squares around a king weigh: each square counts once for each kind of
/// piece that attacks it, by the weight of the kind.
pub proof fn law_attack_units(b: Placement, info: PawnInfo, c: Color, k: int, p: EvalParams)
    requires
        info.describes(b),
        0 <= k < 64,
    ensures
        king::units(b, info, c, k, p) == sums::how_many(under_fire(b, c, k, Role::Pawn))
            * p.attack_weight@[1] + sums::how_many(under_fire(b, c, k, Role::Knight))
            * p.attack_weight@[2] + sums::how_many(under_fire(b, c, k, Role::Bishop))
            * p.attack_weight@[3] + sums::how_many(under_fire(b, c, k, Role::Rook))
            * p.attack_weight@[4] + sums::how_many(under_fire(b, c, k, Role::Queen))
            * p.attack_weight@[5],
{
    lemma_under_fire(b, info, c, k, Role::Pawn);
    lemma_under_fire(b, info, c, k, Role::Knight);
    lemma_under_fire(b, info, c, k, Role::Bishop);
    lemma_under_fire(b, info, c, k, Role::Rook);
    lemma_under_fire(b, info, c, k, Role::Queen);
}

proof fn lemma_under_fire(b: Placement, info: PawnInfo, c: Color, k: int, role: Role)
    requires
        info.describes(b),
        0 <= k < 64,
    ensures
        king::pressed(b, info, c, k, role) == sums::how_many(under_fire(b, c, k, role)),
{
    broadcast use bits::group_mem;

    let d = c.opposite();
    let u = king::presses(b, info, c, k, role);
    assert(info.sound(d));
    assert forall|t: int| 0 <= t < 64 implies #[trigger] u(t) == under_fire(b, c, k, role)(t) by {
        lemma_guarded(info, d, t);
        if role == Role::Pawn {
            if guarded(b.pawns & b.side(d), d, t) {
                let s = choose|s: int| #[trigger]
                    bits::mem(b.pawns & b.side(d), s) && next_file(t, s) && t / 8 == s / 8 + ahead(
                        d,
                    );
                bits::mem_zero(s);
            }
        } else {
            if mobility::hit_by(b, d, role, t) {
                let s = choose|s: int|
                    bits::mem(evaluation::word(b, d, role), s) && #[trigger] mobility::aims(
                        b,
                        role,
                        s,
                        t,
                    );
                assert(attacks::attacks(role.code_spec() as int, s, t, b.white | b.black));
            }
            if under_fire(b, c, k, role)(t) {
                let s = choose|s: int|
                    bits::mem(b.kind(role) & b.side(d), s) && #[trigger] attacks::attacks(
                        role.code_spec() as int,
                        s,
                        t,
                        b.white | b.black,
                    );
                assert(mobility::aims(b, role, s, t));
            }
        }
    }
    sums::lemma_how_many_same(u, under_fire(b, c, k, role));
}

/// Attacks on the squares around a king cost what they weigh, and as much again for every two
/// enemy pieces among those squares; attacks that weigh nothing cost nothing.
pub proof fn law_danger(b: Placement, info: PawnInfo, c: Color, k: int, p: EvalParams, n: int)
    requires
        0 <= n,
        2 * n <= sums::how_many(king::intruder(b, info, c, k)) <= 2 * n + 1,
    ensures
        king::units(b, info, c, k, p) <= 0 ==> king::danger(b, info, c, k, p) == 0,
        king::units(b, info, c, k, p) > 0 ==> king::danger(b, info, c, k, p) == king::units(
            b,
            info,
            c,
            k,
            p,
        ) + n * king::units(b, info, c, k, p),
{
    let u = king::units(b, info, c, k, p);
    assert(u * (1 + n) == u + n * u) by (nonlinear_arith);
}

/// The safety of a king: the pawns in front of it count for it; attacks, open files and holes
/// count against it. In the endgame its place counts alone, and a side without a king has
/// none of either.
pub proof fn law_king_safety(b: Placement, info: PawnInfo, c: Color, k: int, p: EvalParams)
    requires
        b.king_sq(c) == k,
        0 <= k < 64,
    ensures
        king::half(b, info, c, p, 0) + king::danger(b, info, c, k, p) + king::open_files(
            info,
            c,
            k,
            p,
        ) + king::holes(info, c, k, p) == king::shield(info, c, k, p),
        king::half(b, info, c, p, 1) == king::activity(info, c, k, p),
{
}

/// How far a file or a rank is from the two middle ones.
pub open spec fn from_middle(x: int) -> int {
    if x < 3 {
        3 - x
    } else if x > 4 {
        x - 4
    } else {
        0
    }
}

/// A king's place in the endgame: each step towards the middle counts the parameter of the
/// centre once, and each file between it and an enemy passed pawn costs that of the distance
/// once.
pub proof fn law_king_activity(b: Placement, info: PawnInfo, c: Color, k: int, p: EvalParams)
    requires
        info.describes(b),
        0 <= k < 64,
    ensures
        ({
            let w = b.pawns & b.side(c);
            let e = b.pawns & b.side(c.opposite());
            let way = |s: int|
                if free_to_run(e, w, c.opposite())(s) {
                    if s % 8 >= k % 8 {
                        s % 8 - k % 8
                    } else {
                        k % 8 - s % 8
                    }
                } else {
                    0
                };
            king::activity(info, c, k, p) == (2 - from_middle(k % 8) - from_middle(k / 8))
                * p.king_center_bonus - sums::over(e, way) * p.king_passer_dist_penalty
        }),
{
    let w = b.pawns & b.side(c);
    let e = b.pawns & b.side(c.opposite());
    let way = |s: int|
        if free_to_run(e, w, c.opposite())(s) {
            if s % 8 >= k % 8 {
                s % 8 - k % 8
            } else {
                k % 8 - s % 8
            }
        } else {
            0
        };
    let r = king::race(info, c, k);
    assert(info.pawns(c) == w && info.pawns(c.opposite()) == e);
    assert forall|s: int| 0 <= s < 64 implies #[trigger] sums::masked(e, r)(s) == sums::masked(
        e,
        way,
    )(s) by {
        if bits::mem(e, s) {
            lemma_free(e, w, c.opposite(), s);
        }
    }
    sums::lemma_ranged_same(64, sums::masked(e, r), sums::masked(e, way));
    assert(king::off_centre(k % 8) == from_middle(k % 8) + 1);
    assert(king::off_centre(k / 8) == from_middle(k / 8) + 1);
}

proof fn lemma_free(w: u64, e: u64, c: Color, s: int)
    requires
        bits::mem(w, s),
    ensures
        passed_pawns::passed(e, c, s) == free_to_run(w, e, c)(s),
{
    if !passed_pawns::passed(e, c, s) {
        let t = choose|t: int| #[trigger]
            bits::mem(e, t) && (t % 8 == s % 8 || evaluation::beside(s, t)) && evaluation::level(c, t)
                > evaluation::level(c, s);
        assert(gone(c, s, t) > 0);
    }
    if !free_to_run(w, e, c)(s) {
        let t = choose|t: int| #[trigger]
            bits::mem(e, t) && (t % 8 == s % 8 || next_file(s, t)) && gone(c, s, t) > 0;
        assert(evaluation::level(c, t) > evaluation::level(c, s));
        assert(t % 8 == s % 8 || evaluation::beside(s, t));
    }
}

/// The enemy's pieces among the squares around a king that count as intruders: those whose
/// kind attacks one of these squares. Its king never does.
pub proof fn law_intruders(b: Placement, info: PawnInfo, c: Color, k: int, t: int)
    requires
        info.describes(b),
        0 <= k < 64,
    ensures
        king::intruder(b, info, c, k)(t) <==> king::in_ring(c, k, t) && exists|role: Role|
            role != Role::King && #[trigger] bits::mem(b.kind(role) & b.side(c.opposite()), t)
                && sums::how_many(under_fire(b, c, k, role)) > 0,
{
    lemma_under_fire(b, info, c, k, Role::Pawn);
    lemma_under_fire(b, info, c, k, Role::Knight);
    lemma_under_fire(b, info, c, k, Role::Bishop);
    lemma_under_fire(b, info, c, k, Role::Rook);
    lemma_under_fire(b, info, c, k, Role::Queen);
    let d = c.opposite();
    if king::intruder(b, info, c, k)(t) {
        if king::intrudes(b, info, c, k, Role::Pawn, t) {
            assert(bits::mem(b.kind(Role::Pawn) & b.side(d), t));
        } else if king::intrudes(b, info, c, k, Role::Knight, t) {
            assert(bits::mem(b.kind(Role::Knight) & b.side(d), t));
        } else if king::intrudes(b, info, c, k, Role::Bishop, t) {
            assert(bits::mem(b.kind(Role::Bishop) & b.side(d), t));
        } else if king::intrudes(b, info, c, k, Role::Rook, t) {
            assert(bits::mem(b.kind(Role::Rook) & b.side(d), t));
        } else {
            assert(bits::mem(b.kind(Role::Queen) & b.side(d), t));
        }
    }
}

} // verus!
