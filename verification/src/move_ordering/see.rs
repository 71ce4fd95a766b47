//! What an exchange on one square wins or loses.
//!
//! After a capture both sides may go on capturing on the square, the least
//! valuable piece first, and either stops where going on would not pay.
use vstd::prelude::*;
use crate::bits;
use crate::board::state;
use crate::board::Placement;
use crate::evaluation;
use crate::evaluation::params;
use crate::evaluation::params::EvalParams;
use crate::move_ordering::tt_move;
use crate::move_ordering::tt_move::is_capture_or_promotion;
use crate::nnue::attacks;
use crate::nnue::attacks::{attacks_bb, pawn_attacks};
use crate::nnue::board;
use crate::nnue::geometry;
use crate::nnue::types::Color;
use crate::types::{RawMove, Role};

verus! {

// --- who can capture ----------------------------------------------------------------------------

/// A piece of a kind and a colour on `s` attacks `t` while the squares `occ` are
/// occupied.
pub open spec fn reaches(c: Color, role: Role, s: int, t: int, occ: u64) -> bool {
    if role == Role::Pawn {
        geometry::pawn_step(c.index(), s, t)
    } else {
        attacks::attacks(role.code_spec() as int, s, t, occ)
    }
}

/// A piece of a kind of a side that is still on the board can capture on `t`.
pub open spec fn taker(b: Placement, t: int, occ: u64, c: Color, role: Role) -> spec_fn(int) -> bool {
    |s: int|
        bits::mem(occ, s) && bits::mem(evaluation::word(b, c, role), s) && reaches(
            c,
            role,
            s,
            t,
            occ,
        )
}

/// The pieces of a kind of a side that can capture on `t`.
pub open spec fn takers(b: Placement, t: int, occ: u64, c: Color, role: Role) -> u64 {
    board::word_of(taker(b, t, occ, c, role))
}

/// The least valuable kind of piece of a side that can capture on `t`.
pub open spec fn least(b: Placement, t: int, occ: u64, c: Color) -> Option<Role> {
    if takers(b, t, occ, c, Role::Pawn) != 0 {
        Some(Role::Pawn)
    } else if takers(b, t, occ, c, Role::Knight) != 0 {
        Some(Role::Knight)
    } else if takers(b, t, occ, c, Role::Bishop) != 0 {
        Some(Role::Bishop)
    } else if takers(b, t, occ, c, Role::Rook) != 0 {
        Some(Role::Rook)
    } else if takers(b, t, occ, c, Role::Queen) != 0 {
        Some(Role::Queen)
    } else if takers(b, t, occ, c, Role::King) != 0 {
        Some(Role::King)
    } else {
        None
    }
}

/// The pieces that are still on the board after the first of a kind captured.
pub open spec fn thinned(b: Placement, t: int, occ: u64, c: Color, role: Role) -> u64 {
    occ ^ (1u64 << (bits::lsb(takers(b, t, occ, c, role)) as u64))
}

/// An attack works both ways.
proof fn lemma_reaches(c: Color, role: Role, s: int, t: int, occ: u64)
    ensures
        reaches(c, role, s, t, occ) == (if role == Role::Pawn {
            geometry::pawn_step(c.opposite().index(), t, s)
        } else {
            attacks::attacks(role.code_spec() as int, t, s, occ)
        }),
{
    geometry::lemma_clear_sym(s, t, occ);
}

/// The pieces of a kind of a side that can capture on `t`.
fn takers_of(board: &Placement, t: usize, occ: u64, c: Color, role: Role) -> (r: u64)
    requires
        t < 64,
    ensures
        r == takers(*board, t as int, occ, c, role),
{
    broadcast use bits::group_mem;

    let lines: u64 = match role {
        Role::Pawn => pawn_attacks(c.other(), t),
        _ => attacks_bb(role.code(), t, occ),
    };
    let r: u64 = occ & board.by_piece(c, role) & lines;
    proof {
        let u = taker(*board, t as int, occ, c, role);
        board::lemma_word_exists(u);
        assert forall|s: int| 0 <= s < 64 implies bits::mem(r, s) == #[trigger] bits::mem(
            board::word_of(u),
            s,
        ) by {
            lemma_reaches(c, role, s, t as int, occ);
        }
        bits::lemma_ext(r, board::word_of(u));
    }
    r
}

/// The least valuable piece of a side that can capture on `t`, and where it
/// stands.
fn least_valuable_attacker(board: &Placement, t: usize, occ: u64, c: Color) -> (r: Option<
    (usize, Role),
>)
    requires
        t < 64,
    ensures
        match least(*board, t as int, occ, c) {
            Some(role) => r == Some(
                (bits::lsb(takers(*board, t as int, occ, c, role)) as usize, role),
            ) && takers(*board, t as int, occ, c, role) != 0,
            None => r is None,
        },
        r matches Some(x) ==> x.0 < 64,
{
    let w: u64 = takers_of(board, t, occ, c, Role::Pawn);
    if w != 0 {
        proof {
            bits::lemma_lsb(w);
        }
        return Some((w.trailing_zeros() as usize, Role::Pawn));
    }
    let w: u64 = takers_of(board, t, occ, c, Role::Knight);
    if w != 0 {
        proof {
            bits::lemma_lsb(w);
        }
        return Some((w.trailing_zeros() as usize, Role::Knight));
    }
    let w: u64 = takers_of(board, t, occ, c, Role::Bishop);
    if w != 0 {
        proof {
            bits::lemma_lsb(w);
        }
        return Some((w.trailing_zeros() as usize, Role::Bishop));
    }
    let w: u64 = takers_of(board, t, occ, c, Role::Rook);
    if w != 0 {
        proof {
            bits::lemma_lsb(w);
        }
        return Some((w.trailing_zeros() as usize, Role::Rook));
    }
    let w: u64 = takers_of(board, t, occ, c, Role::Queen);
    if w != 0 {
        proof {
            bits::lemma_lsb(w);
        }
        return Some((w.trailing_zeros() as usize, Role::Queen));
    }
    let w: u64 = takers_of(board, t, occ, c, Role::King);
    if w != 0 {
        proof {
            bits::lemma_lsb(w);
        }
        return Some((w.trailing_zeros() as usize, Role::King));
    }
    None
}

// --- the exchange -------------------------------------------------------------------------------

/// The lesser of two numbers.
pub open spec fn lesser(x: int, y: int) -> int {
    if x < y {
        x
    } else {
        y
    }
}

/// What a side that has won `won` by its last capture ends up with. The other
/// side, `c`, may win back `stake` from it with its least valuable piece, unless
/// that is its king, and does so if it pays. There are at most thirty-two
/// captures; `n` are left.
pub open spec fn outcome(
    b: Placement,
    t: int,
    occ: u64,
    c: Color,
    v: spec_fn(Role) -> int,
    won: int,
    stake: int,
    n: int,
) -> int
    decreases n,
{
    let next = least(b, t, occ, c);
    if n <= 0 || next is None || next == Some(Role::King) {
        won
    } else {
        lesser(
            won,
            -outcome(
                b,
                t,
                thinned(b, t, occ, c, next->0),
                c.opposite(),
                v,
                stake - won,
                v(next->0),
                n - 1,
            ),
        )
    }
}

/// The square of the piece that a move captures.
pub open spec fn victim_square(c: Color, m: RawMove) -> int {
    let s = match c {
        Color::White => m.to_sq() - 8,
        Color::Black => m.to_sq() + 8,
    };
    if m.kind_spec() == 2 && 0 <= s < 64 {
        s
    } else {
        m.to_sq()
    }
}

/// The pieces that are still on the board after a move: neither the piece that
/// moves nor the one that it captures counts.
pub open spec fn left_over(b: Placement, c: Color, m: RawMove) -> u64 {
    let occ = (b.white | b.black) ^ (1u64 << (m.from_sq() as u64));
    if m.kind_spec() == 2 || b.role_on(m.to_sq()) is Some {
        occ ^ (1u64 << (victim_square(c, m) as u64))
    } else {
        occ
    }
}

/// What the piece is worth that stands on the last square after a move.
pub open spec fn placed(b: Placement, m: RawMove, v: spec_fn(Role) -> int) -> int {
    match m.promotion_spec() {
        Some(role) => v(role),
        None => tt_move::worth_on(b, m.from_sq(), v),
    }
}

/// The side of the piece on the first square of a move.
pub open spec fn mover(b: Placement, m: RawMove) -> Color {
    if b.piece_code(m.from_sq()) > 8 {
        Color::Black
    } else {
        Color::White
    }
}

/// What a capture or promotion wins in the end, by the values `v`. Quiet moves,
/// and moves of a king, win nothing.
pub open spec fn exchange(b: Placement, m: RawMove, v: spec_fn(Role) -> int) -> int {
    let role = b.role_on(m.from_sq());
    if role is None || role == Some(Role::King) || !state::is_noisy(b)(m) {
        0
    } else {
        let c = mover(b, m);
        outcome(
            b,
            m.to_sq(),
            left_over(b, c, m),
            c.opposite(),
            v,
            tt_move::victim(b, m, v) + tt_move::surplus(m, v),
            placed(b, m, v),
            31,
        )
    }
}

/// What the first entry of a list of gains becomes when the entry at `k` becomes
/// `x`: each side stops where going on would not pay.
spec fn folded(s: Seq<i32>, k: int, x: int) -> int
    decreases k,
{
    if k <= 0 {
        x
    } else {
        folded(s, k - 1, lesser(s[k - 1] as int, -x))
    }
}

/// Only the entries before `k` count.
proof fn lemma_folded(s: Seq<i32>, r: Seq<i32>, k: int, x: int)
    requires
        forall|i: int| 0 <= i < k ==> s[i] == r[i],
    ensures
        folded(s, k, x) == folded(r, k, x),
    decreases k,
{
    if k > 0 {
        lemma_folded(s, r, k - 1, lesser(s[k - 1] as int, -x));
    }
}

/// What the moves on a square come to.
#[verifier::spinoff_prover]
fn settle(board: &Placement, t: usize, start: u64, first: Color, p: &EvalParams, won: i32, stake: i32)
    -> (r: i32)
    requires
        t < 64,
        params::priced(*p),
        -3000000 <= won <= 3000000,
        -1000000 <= stake <= 1000000,
    ensures
        r == outcome(
            *board,
            t as int,
            start,
            first,
            params::prices(*p),
            won as int,
            stake as int,
            31,
        ),
{
    let ghost v = params::prices(*p);
    let ghost goal = outcome(*board, t as int, start, first, v, won as int, stake as int, 31);
    proof {
        tt_move::lemma_prices(*p);
    }
    let mut gains: [i32; 32] = [0i32;32];
    gains[0] = won;
    let mut occ: u64 = start;
    let mut c: Color = first;
    let mut held: i32 = stake;
    let mut n: usize = 1;
    let mut done: bool = false;
    while n < 32 && !done
        invariant
            t < 64,
            1 <= n <= 32,
            v == params::prices(*p),
            forall|role: Role| -1000000 <= #[trigger] params::value_of(*p, role) <= 1000000,
            -1000000 <= held <= 1000000,
            forall|i: int|
                0 <= i < n ==> -3000000 - 1000000 * i <= #[trigger] gains@[i] <= 3000000 + 1000000
                    * i,
            !done ==> folded(
                gains@,
                n - 1,
                outcome(
                    *board,
                    t as int,
                    occ,
                    c,
                    v,
                    gains@[n - 1] as int,
                    held as int,
                    32 - n,
                ),
            ) == goal,
            done ==> folded(gains@, n - 1, gains@[n - 1] as int) == goal,
        decreases
                32 - n + (if done {
                    0int
                } else {
                    1
                }),
    {
        let next: Option<(usize, Role)> = least_valuable_attacker(board, t, occ, c);
        let mut taken: Option<(usize, Role)> = None;
        if let Some((s, role)) = next {
            if role != Role::King {
                taken = Some((s, role));
            }
        }
        if let Some((s, role)) = taken {
            let ghost before = gains@;
            let ghost was = occ;
            let gain: i32 = held - gains[n - 1];
            gains[n] = gain;
            proof {
                lemma_step(
                    *board,
                    t as int,
                    was,
                    c,
                    v,
                    before,
                    gains@,
                    held as int,
                    n as int,
                    role,
                );
            }
            occ = occ ^ (1u64 << (s as u64));
            held = p.piece_value(role);
            c = c.other();
            n = n + 1;
        } else {
            done = true;
        }
    }
    let mut k: usize = n - 1;
    let mut x: i32 = gains[k];
    while k > 0
        invariant
            k < 32,
            forall|i: int|
                0 <= i <= k ==> -40000000 <= #[trigger] gains@[i] <= 40000000,
            -40000000 <= x <= 40000000,
            folded(gains@, k as int, x as int) == goal,
        decreases k,
    {
        let y: i32 = gains[k - 1];
        x = if y < -x {
            y
        } else {
            -x
        };
        k = k - 1;
    }
    x
}

/// One more capture.
proof fn lemma_step(
    b: Placement,
    t: int,
    occ: u64,
    c: Color,
    v: spec_fn(Role) -> int,
    before: Seq<i32>,
    after: Seq<i32>,
    held: int,
    n: int,
    role: Role,
)
    requires
        1 <= n < 32,
        before.len() == 32,
        after == before.update(n, (held - before[n - 1]) as i32),
        i32::MIN <= held - before[n - 1] <= i32::MAX,
        least(b, t, occ, c) == Some(role),
        role != Role::King,
    ensures
        folded(
            before,
            n - 1,
            outcome(b, t, occ, c, v, before[n - 1] as int, held, 32 - n),
        ) == folded(
            after,
            n,
            outcome(
                b,
                t,
                thinned(b, t, occ, c, role),
                c.opposite(),
                v,
                after[n] as int,
                v(role),
                31 - n,
            ),
        ),
{
    let next = outcome(
        b,
        t,
        thinned(b, t, occ, c, role),
        c.opposite(),
        v,
        after[n] as int,
        v(role),
        31 - n,
    );
    lemma_folded(before, after, n, next);
}

/// What a capture or promotion wins in the end.
pub fn see(board: &Placement, m: RawMove, p: &EvalParams) -> (r: i32)
    requires
        params::priced(*p),
    ensures
        r == exchange(*board, m, params::prices(*p)),
{
    let role: Role = match board.role_at(m.from()) {
        Some(role) => role,
        None => {
            return 0;
        },
    };
    if role == Role::King || !is_capture_or_promotion(board, m) {
        return 0;
    }
    let c: Color = if board.code_at(m.from()) > 8 {
        Color::Black
    } else {
        Color::White
    };
    let to: usize = m.to();
    let mut occ: u64 = board.occupied() ^ (1u64 << (m.from() as u64));
    if m.is_en_passant() {
        let s: usize = match c {
            Color::White => if to >= 8 {
                to - 8
            } else {
                to
            },
            Color::Black => if to < 56 {
                to + 8
            } else {
                to
            },
        };
        occ = occ ^ (1u64 << (s as u64));
    } else if board.role_at(to).is_some() {
        occ = occ ^ (1u64 << (to as u64));
    }
    proof {
        tt_move::lemma_prices(*p);
    }
    let mut won: i32 = tt_move::victim_value(board, m, p);
    let mut stake: i32 = p.piece_value(role);
    if let Some(promoted) = m.promotion() {
        won = won + (p.piece_value(promoted) - p.piece_value(Role::Pawn));
        stake = p.piece_value(promoted);
    }
    settle(board, to, occ, c.other(), p, won, stake)
}

/// Whether a capture or promotion wins at least `threshold` in the end.
pub fn see_ge(board: &Placement, m: RawMove, threshold: i32, p: &EvalParams) -> (r: bool)
    requires
        params::priced(*p),
    ensures
        r == (exchange(*board, m, params::prices(*p)) >= threshold),
{
    see(board, m, p) >= threshold
}

/// An exchange wins at most what the first capture wins: the other side need not
/// go on.
pub proof fn law_exchange_bounded(b: Placement, m: RawMove, v: spec_fn(Role) -> int)
    requires
        state::is_noisy(b)(m),
        b.role_on(m.from_sq()) is Some,
        b.role_on(m.from_sq()) != Some(Role::King),
    ensures
        exchange(b, m, v) <= tt_move::victim(b, m, v) + tt_move::surplus(m, v),
{
}

/// A capture on a square that no piece can capture back on wins what it takes.
pub proof fn law_undefended(b: Placement, m: RawMove, v: spec_fn(Role) -> int)
    requires
        state::is_noisy(b)(m),
        b.role_on(m.from_sq()) is Some,
        b.role_on(m.from_sq()) != Some(Role::King),
        least(b, m.to_sq(), left_over(b, mover(b, m), m), mover(b, m).opposite()) is None,
    ensures
        exchange(b, m, v) == tt_move::victim(b, m, v) + tt_move::surplus(m, v),
{
}

/// A piece of a kind of a side stands on `s`, still on the board, and can capture on
/// `t`.
pub open spec fn may_take(b: Placement, t: int, occ: u64, c: Color, role: Role, s: int) -> bool {
    &&& bits::mem(occ, s)
    &&& bits::mem(b.kind(role), s)
    &&& bits::mem(b.side(c), s)
    &&& reaches(c, role, s, t, occ)
}

proof fn lemma_takers(b: Placement, t: int, occ: u64, c: Color, role: Role)
    ensures
        forall|s: int| #[trigger]
            bits::mem(takers(b, t, occ, c, role), s) == may_take(b, t, occ, c, role, s),
        takers(b, t, occ, c, role) != 0 ==> may_take(
            b,
            t,
            occ,
            c,
            role,
            bits::lsb(takers(b, t, occ, c, role)),
        ),
        (exists|s: int| may_take(b, t, occ, c, role, s)) ==> takers(b, t, occ, c, role) != 0,
{
    broadcast use bits::group_mem;

    let w = takers(b, t, occ, c, role);
    board::lemma_word_exists(taker(b, t, occ, c, role));
    assert forall|s: int| #[trigger] bits::mem(w, s) == may_take(b, t, occ, c, role, s) by {
        assert(bits::mem(w, s) == (0 <= s < 64 && taker(b, t, occ, c, role)(s)));
    }
    if w != 0 {
        bits::lemma_lsb(w);
    }
    if exists|s: int| may_take(b, t, occ, c, role, s) {
        let s = choose|s: int| may_take(b, t, occ, c, role, s);
        assert(bits::mem(w, s));
        bits::mem_zero(s);
    }
}

/// No piece is cheaper than a pawn, and then come knights, bishops, rooks and
/// queens.
pub open spec fn ordinary(v: spec_fn(Role) -> int) -> bool {
    0 <= v(Role::Pawn) <= v(Role::Knight) && v(Role::Knight) <= v(Role::Bishop) && v(Role::Bishop)
        <= v(Role::Rook) && v(Role::Rook) <= v(Role::Queen)
}

/// Whoever takes back has no cheaper piece that could take back: where a piece
/// other than the king can, the kind that is chosen costs no more than it and is
/// no king.
pub proof fn law_cheapest_takes_back(
    b: Placement,
    t: int,
    occ: u64,
    c: Color,
    v: spec_fn(Role) -> int,
    role: Role,
    s: int,
)
    requires
        ordinary(v),
        role != Role::King,
        may_take(b, t, occ, c, role, s),
    ensures
        least(b, t, occ, c) matches Some(r) && r != Role::King && v(r) <= v(role),
{
    lemma_takers(b, t, occ, c, role);
}

/// Someone takes back where some piece can, and it is a piece that can; the king
/// does so where no other piece can.
pub proof fn law_who_takes_back(b: Placement, t: int, occ: u64, c: Color)
    ensures
        least(b, t, occ, c) is None <==> forall|role: Role, s: int|
            !#[trigger] may_take(b, t, occ, c, role, s),
        least(b, t, occ, c) matches Some(r) ==> exists|s: int|
            #[trigger] may_take(b, t, occ, c, r, s),
        least(b, t, occ, c) == Some(Role::King) ==> forall|role: Role, s: int|
            #[trigger] may_take(b, t, occ, c, role, s) ==> role == Role::King,
{
    lemma_takers(b, t, occ, c, Role::Pawn);
    lemma_takers(b, t, occ, c, Role::Knight);
    lemma_takers(b, t, occ, c, Role::Bishop);
    lemma_takers(b, t, occ, c, Role::Rook);
    lemma_takers(b, t, occ, c, Role::Queen);
    lemma_takers(b, t, occ, c, Role::King);
    if let Some(r) = least(b, t, occ, c) {
        let s = bits::lsb(takers(b, t, occ, c, r));
        assert(may_take(b, t, occ, c, r, s));
    }
    assert forall|role: Role, s: int| #[trigger] may_take(b, t, occ, c, role, s) implies least(
        b,
        t,
        occ,
        c,
    ) is Some && (least(b, t, occ, c) == Some(Role::King) ==> role == Role::King) by {
        assert(bits::mem(takers(b, t, occ, c, role), s));
        bits::mem_zero(s);
    }
}

/// A piece that takes back leaves its square, and no other does.
pub proof fn law_taker_leaves(b: Placement, t: int, occ: u64, c: Color, role: Role)
    requires
        exists|s: int| may_take(b, t, occ, c, role, s),
    ensures
        exists|s: int|
            #![trigger may_take(b, t, occ, c, role, s)]
            may_take(b, t, occ, c, role, s) && forall|q: int| #[trigger]
                bits::mem(thinned(b, t, occ, c, role), q) == (bits::mem(occ, q) && q != s),
{
    lemma_takers(b, t, occ, c, role);
    let s = bits::lsb(takers(b, t, occ, c, role));
    assert(may_take(b, t, occ, c, role, s));
    lemma_off(occ, s);
}

/// Taking a square out of a set that holds it.
proof fn lemma_off(occ: u64, s: int)
    requires
        bits::mem(occ, s),
    ensures
        forall|q: int| #[trigger]
            bits::mem(occ ^ (1u64 << (s as u64)), q) == (bits::mem(occ, q) && q != s),
{
    broadcast use bits::group_mem;

    let k = s as u64;
    assert forall|q: int| #[trigger] bits::mem(occ ^ (1u64 << k), q) == (bits::mem(occ, q) && q
        != s) by {
        if 0 <= q < 64 {
            let i = q as u64;
            assert(k < 64 && i < 64 && (occ >> k) & 1u64 == 1u64 ==> (((occ ^ (1u64 << k)) >> i)
                & 1u64 == 1u64 <==> ((occ >> i) & 1u64 == 1u64 && i != k))) by (bit_vector);
        }
    }
}

/// A piece of the side `c` takes one of the other side, without promoting and not en
/// passant.
pub open spec fn plain_capture(b: Placement, c: Color, m: RawMove, x: Role, y: Role) -> bool {
    &&& m.from_sq() != m.to_sq()
    &&& m.kind_spec() != 2
    &&& m.promotion_spec() is None
    &&& state::is_noisy(b)(m)
    &&& b.consistent()
    &&& b.role_on(m.from_sq()) == Some(x)
    &&& b.role_on(m.to_sq()) == Some(y)
    &&& x != Role::King
    &&& bits::mem(b.side(c), m.from_sq())
}

/// After a capture neither the piece that moved nor the one that was taken can be in
/// the way or take back; all others can.
pub proof fn law_capture_clears(b: Placement, c: Color, m: RawMove, x: Role, y: Role, s: int)
    requires
        plain_capture(b, c, m, x, y),
    ensures
        mover(b, m) == c,
        bits::mem(left_over(b, c, m), s) == ((bits::mem(b.white, s) || bits::mem(b.black, s)) && s
            != m.from_sq() && s != m.to_sq()),
{
    broadcast use bits::group_mem;

    let all = b.white | b.black;
    assert(b.role_code(m.from_sq()) != 0 && b.role_code(m.to_sq()) != 0);
    assert(bits::mem(all, m.from_sq()) && bits::mem(all, m.to_sq()));
    lemma_off(all, m.from_sq());
    lemma_off(all ^ (1u64 << (m.from_sq() as u64)), m.to_sq());
}

/// The side `d` has a piece other than its king that can capture on `t`.
pub open spec fn guarded(b: Placement, t: int, occ: u64, d: Color) -> bool {
    exists|role: Role, s: int| role != Role::King && #[trigger] may_take(b, t, occ, d, role, s)
}

proof fn lemma_guarded(b: Placement, t: int, occ: u64, d: Color)
    ensures
        guarded(b, t, occ, d) <==> (least(b, t, occ, d) is Some && least(b, t, occ, d) != Some(
            Role::King,
        )),
{
    law_who_takes_back(b, t, occ, d);
    if guarded(b, t, occ, d) {
        let (role, s) = choose|role: Role, s: int|
            role != Role::King && #[trigger] may_take(b, t, occ, d, role, s);
        assert(may_take(b, t, occ, d, role, s));
    }
    if let Some(r) = least(b, t, occ, d) {
        if r != Role::King {
            let s = choose|s: int| #[trigger] may_take(b, t, occ, d, r, s);
            assert(may_take(b, t, occ, d, r, s));
        }
    }
}

/// What a capture is worth: at most what it takes, and at least that less the piece
/// that takes. It is what it takes where only a king can take back; where the other
/// side can take back and nobody can take again, it is that less the piece.
pub proof fn law_worth_of_a_capture(
    b: Placement,
    c: Color,
    m: RawMove,
    x: Role,
    y: Role,
    v: spec_fn(Role) -> int,
)
    requires
        plain_capture(b, c, m, x, y),
        v(x) >= 0,
    ensures
        v(y) - v(x) <= exchange(b, m, v) <= v(y),
        !guarded(b, m.to_sq(), left_over(b, c, m), c.opposite()) ==> exchange(b, m, v) == v(y),
        guarded(b, m.to_sq(), left_over(b, c, m), c.opposite()) && (forall|role: Role, s: int|
            role != Role::King ==> !(bits::mem(b.kind(role), s) && bits::mem(b.side(c), s) && s
                != m.from_sq())) ==> exchange(b, m, v) == v(y) - v(x),
{
    let t = m.to_sq();
    let occ = left_over(b, c, m);
    let d = c.opposite();
    law_capture_clears(b, c, m, x, y, 0);
    lemma_guarded(b, t, occ, d);
    reveal_with_fuel(outcome, 3);
    if guarded(b, t, occ, d) {
        let r = least(b, t, occ, d)->0;
        let next = thinned(b, t, occ, d, r);
        lemma_guarded(b, t, next, c);
        assert(d.opposite() == c);
        if forall|role: Role, s: int|
            role != Role::King ==> !(bits::mem(b.kind(role), s) && bits::mem(b.side(c), s) && s
                != m.from_sq()) {
            assert forall|role: Role, s: int| role != Role::King implies !#[trigger] may_take(
                b,
                t,
                next,
                c,
                role,
                s,
            ) by {
                if may_take(b, t, next, c, role, s) {
                    lemma_takers(b, t, occ, d, r);
                    lemma_off(occ, bits::lsb(takers(b, t, occ, d, r)));
                    law_capture_clears(b, c, m, x, y, s);
                    assert(bits::mem(occ, s));
                }
            }
        }
    }
}

/// A capture that wins more to begin with wins no less in the end.
pub proof fn law_more_is_better(
    b: Placement,
    t: int,
    occ: u64,
    c: Color,
    v: spec_fn(Role) -> int,
    won: int,
    more: int,
    stake: int,
    n: int,
)
    requires
        won <= more,
    ensures
        outcome(b, t, occ, c, v, won, stake, n) <= outcome(b, t, occ, c, v, more, stake, n),
    decreases n,
{
    let next = least(b, t, occ, c);
    if !(n <= 0 || next is None || next == Some(Role::King)) {
        law_more_is_better(
            b,
            t,
            thinned(b, t, occ, c, next->0),
            c.opposite(),
            v,
            stake - more,
            stake - won,
            v(next->0),
            n - 1,
        );
    }
}

/// After a capture en passant neither the pawn that moved nor the one behind the square on which
/// it ended can be in the way or take back; all others can.
pub proof fn law_passing_clears(b: Placement, c: Color, m: RawMove, passed: int, s: int)
    requires
        m.kind_spec() == 2,
        passed == if c == Color::White {
            m.to_sq() - 8
        } else {
            m.to_sq() + 8
        },
        passed != m.from_sq(),
        bits::mem(b.white, m.from_sq()) || bits::mem(b.black, m.from_sq()),
        bits::mem(b.white, passed) || bits::mem(b.black, passed),
    ensures
        bits::mem(left_over(b, c, m), s) == ((bits::mem(b.white, s) || bits::mem(b.black, s)) && s
            != m.from_sq() && s != passed),
{
    broadcast use bits::group_mem;

    let all = b.white | b.black;
    assert(bits::mem(all, m.from_sq()) && bits::mem(all, passed));
    lemma_off(all, m.from_sq());
    lemma_off(all ^ (1u64 << (m.from_sq() as u64)), passed);
}

/// A pawn of the side `c` turns into the piece `q`.
pub open spec fn promotes(b: Placement, c: Color, m: RawMove, q: Role) -> bool {
    &&& m.from_sq() != m.to_sq()
    &&& m.promotion_spec() == Some(q)
    &&& b.consistent()
    &&& b.role_on(m.from_sq()) == Some(Role::Pawn)
    &&& bits::mem(b.side(c), m.from_sq())
}

/// After a promotion the pawn is gone, and so is what it has taken.
pub proof fn law_promotion_clears(b: Placement, c: Color, m: RawMove, q: Role, s: int)
    requires
        promotes(b, c, m, q),
    ensures
        mover(b, m) == c,
        bits::mem(left_over(b, c, m), s) == ((bits::mem(b.white, s) || bits::mem(b.black, s)) && s
            != m.from_sq() && s != m.to_sq()),
{
    broadcast use bits::group_mem;

    let all = b.white | b.black;
    assert(b.role_code(m.from_sq()) != 0);
    assert(bits::mem(all, m.from_sq()));
    lemma_off(all, m.from_sq());
    if b.role_on(m.to_sq()) is Some {
        assert(b.role_code(m.to_sq()) != 0);
        assert(bits::mem(all, m.to_sq()));
        lemma_off(all ^ (1u64 << (m.from_sq() as u64)), m.to_sq());
    } else {
        assert(b.role_code(m.to_sq()) == 0);
        assert(!bits::mem(all, m.to_sq()));
    }
}

/// A promotion wins what the pawn takes and what the new piece is worth more than the pawn, and
/// what it can lose is the new piece: all of it where it can be taken and nothing takes back,
/// nothing where it cannot be taken.
pub proof fn law_worth_of_a_promotion(
    b: Placement,
    c: Color,
    m: RawMove,
    q: Role,
    v: spec_fn(Role) -> int,
    taken: int,
)
    requires
        promotes(b, c, m, q),
        v(q) >= 0,
        taken == match b.role_on(m.to_sq()) {
            Some(y) => v(y),
            None => 0,
        },
    ensures
        ({
            let won = taken + v(q) - v(Role::Pawn);
            &&& won - v(q) <= exchange(b, m, v) <= won
            &&& !guarded(b, m.to_sq(), left_over(b, c, m), c.opposite()) ==> exchange(b, m, v)
                == won
            &&& guarded(b, m.to_sq(), left_over(b, c, m), c.opposite()) && (forall|
                role: Role,
                s: int,
            |
                role != Role::King ==> !(bits::mem(b.kind(role), s) && bits::mem(b.side(c), s) && s
                    != m.from_sq())) ==> exchange(b, m, v) == won - v(q)
        }),
{
    let t = m.to_sq();
    let occ = left_over(b, c, m);
    let d = c.opposite();
    law_promotion_clears(b, c, m, q, 0);
    lemma_guarded(b, t, occ, d);
    reveal_with_fuel(outcome, 3);
    if guarded(b, t, occ, d) {
        let r = least(b, t, occ, d)->0;
        let next = thinned(b, t, occ, d, r);
        lemma_guarded(b, t, next, c);
        assert(d.opposite() == c);
        if forall|role: Role, s: int|
            role != Role::King ==> !(bits::mem(b.kind(role), s) && bits::mem(b.side(c), s) && s
                != m.from_sq()) {
            assert forall|role: Role, s: int| role != Role::King implies !#[trigger] may_take(
                b,
                t,
                next,
                c,
                role,
                s,
            ) by {
                if may_take(b, t, next, c, role, s) {
                    lemma_takers(b, t, occ, d, r);
                    lemma_off(occ, bits::lsb(takers(b, t, occ, d, r)));
                    law_promotion_clears(b, c, m, q, s);
                    assert(bits::mem(occ, s));
                }
            }
        }
    }
}

/// A quiet move, and any move of a king, neither wins nor loses anything.
pub proof fn law_nothing_is_traded(b: Placement, m: RawMove, v: spec_fn(Role) -> int)
    ensures
        m.promotion_spec() is None && m.kind_spec() != 2 && b.role_on(m.to_sq()) is None
            ==> exchange(b, m, v) == 0,
        b.role_on(m.from_sq()) == Some(Role::King) ==> exchange(b, m, v) == 0,
{
}

} // verus!
