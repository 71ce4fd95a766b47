//! The order of kinds of moves: the move of the transposition table first, then
//! captures and promotions, then killers, then the rest.
use vstd::prelude::*;
use crate::board::state;
use crate::board::Placement;
use crate::evaluation::params;
use crate::evaluation::params::EvalParams;
use crate::types::{RawMove, Role};

verus! {

/// The move of the transposition table.
pub const TT_TIER: i32 = 2_000_000;

/// Captures and promotions, with their own score on top.
pub const CAPTURE_TIER: i32 = 1_000_000;

/// The first killer.
pub const KILLER1_TIER: i32 = 800_000;

/// The second killer.
pub const KILLER2_TIER: i32 = 799_999;

/// What a move captures, by the values `v`: a pawn en passant, else what stands
/// on its last square.
pub open spec fn victim(b: Placement, m: RawMove, v: spec_fn(Role) -> int) -> int {
    if m.kind_spec() == 2 {
        v(Role::Pawn)
    } else {
        worth_on(b, m.to_sq(), v)
    }
}

/// What the piece on a square is worth; nothing where there is none.
pub open spec fn worth_on(b: Placement, s: int, v: spec_fn(Role) -> int) -> int {
    match b.role_on(s) {
        Some(role) => v(role),
        None => 0,
    }
}

/// What a promotion adds.
pub open spec fn surplus(m: RawMove, v: spec_fn(Role) -> int) -> int {
    match m.promotion_spec() {
        Some(role) => v(role) - v(Role::Pawn),
        None => 0,
    }
}

/// The score of a capture or promotion: what is won counts sixteen times as much
/// as what captures.
pub open spec fn capture_points(b: Placement, m: RawMove, v: spec_fn(Role) -> int) -> int {
    16 * victim(b, m, v) - worth_on(b, m.from_sq(), v) + 16 * surplus(m, v)
}

/// What a move captures.
pub fn victim_value(board: &Placement, m: RawMove, p: &EvalParams) -> (r: i32)
    ensures
        r == victim(*board, m, params::prices(*p)),
{
    if m.is_en_passant() {
        p.piece_value(Role::Pawn)
    } else {
        match board.role_at(m.to()) {
            Some(role) => p.piece_value(role),
            None => 0,
        }
    }
}

/// The size of a price.
proof fn lemma_price(p: EvalParams, role: Role)
    requires
        params::priced(p),
    ensures
        -1000000 <= params::value_of(p, role) <= 1000000,
{
    assert(params::at_most(p.piece_values@[0], 1000000));
    assert(params::at_most(p.piece_values@[1], 1000000));
    assert(params::at_most(p.piece_values@[2], 1000000));
    assert(params::at_most(p.piece_values@[3], 1000000));
    assert(params::at_most(p.piece_values@[4], 1000000));
}

/// The size of the prices.
pub proof fn lemma_prices(p: EvalParams)
    requires
        params::priced(p),
    ensures
        forall|role: Role| -1000000 <= #[trigger] params::value_of(p, role) <= 1000000,
{
    assert forall|role: Role| -1000000 <= #[trigger] params::value_of(p, role) <= 1000000 by {
        lemma_price(p, role);
    }
}

/// The score of a capture or promotion.
pub fn capture_score(board: &Placement, m: RawMove, p: &EvalParams) -> (r: i32)
    requires
        params::priced(*p),
    ensures
        r == capture_points(*board, m, params::prices(*p)),
        -65000000 <= r <= 65000000,
{
    proof {
        lemma_prices(*p);
    }
    let won: i32 = victim_value(board, m, p);
    let risked: i32 = match board.role_at(m.from()) {
        Some(role) => p.piece_value(role),
        None => 0,
    };
    let mut score: i32 = won * 16 - risked;
    if let Some(promoted) = m.promotion() {
        score = score + (p.piece_value(promoted) - p.piece_value(Role::Pawn)) * 16;
    }
    score
}

/// Whether a move is a capture or a promotion. Castling is neither.
pub fn is_capture_or_promotion(board: &Placement, m: RawMove) -> (r: bool)
    ensures
        r == state::is_noisy(*board)(m),
{
    m.is_promotion() || m.is_en_passant() || (!m.is_castle() && board.role_at(m.to()).is_some())
}

// --- laws -----------------------------------------------------------------------------------------

/// Neither move promotes, and neither captures en passant.
pub open spec fn plain(m: RawMove, n: RawMove) -> bool {
    &&& m.promotion_spec() is None && m.kind_spec() != 2
    &&& n.promotion_spec() is None && n.kind_spec() != 2
}

/// The more valuable the piece that is taken, the earlier a capture by the same kind of
/// piece comes.
pub proof fn law_most_valuable_victim(
    b: Placement,
    m: RawMove,
    n: RawMove,
    x: Role,
    y: Role,
    v: spec_fn(Role) -> int,
)
    requires
        plain(m, n),
        b.role_on(m.from_sq()) == b.role_on(n.from_sq()),
        b.role_on(m.to_sq()) == Some(x),
        b.role_on(n.to_sq()) == Some(y),
    ensures
        capture_points(b, m, v) - capture_points(b, n, v) == 16 * (v(x) - v(y)),
        v(x) > v(y) ==> capture_points(b, m, v) > capture_points(b, n, v),
{
}

/// The less valuable the piece that takes, the earlier a capture of the same kind of
/// piece comes.
pub proof fn law_least_valuable_taker(
    b: Placement,
    m: RawMove,
    n: RawMove,
    x: Role,
    y: Role,
    v: spec_fn(Role) -> int,
)
    requires
        plain(m, n),
        b.role_on(m.to_sq()) == b.role_on(n.to_sq()),
        b.role_on(m.from_sq()) == Some(x),
        b.role_on(n.from_sq()) == Some(y),
    ensures
        capture_points(b, m, v) - capture_points(b, n, v) == v(y) - v(x),
        v(x) < v(y) ==> capture_points(b, m, v) > capture_points(b, n, v),
{
}

/// A promotion comes the earlier the more valuable the new piece is, and counts as a
/// capture of the difference.
pub proof fn law_promotions(
    b: Placement,
    m: RawMove,
    n: RawMove,
    x: Role,
    y: Role,
    v: spec_fn(Role) -> int,
)
    requires
        m.kind_spec() != 2,
        n.kind_spec() != 2,
        m.from_sq() == n.from_sq(),
        m.to_sq() == n.to_sq(),
        m.promotion_spec() == Some(x),
    ensures
        n.promotion_spec() == Some(y) ==> capture_points(b, m, v) - capture_points(b, n, v) == 16
            * (v(x) - v(y)),
        n.promotion_spec() is None ==> capture_points(b, m, v) - capture_points(b, n, v) == 16 * (v(
            x,
        ) - v(Role::Pawn)),
{
}

/// A pawn that is captured en passant is a pawn.
pub proof fn law_en_passant_takes_a_pawn(
    b: Placement,
    m: RawMove,
    n: RawMove,
    v: spec_fn(Role) -> int,
)
    requires
        m.kind_spec() == 2,
        n.kind_spec() != 2,
        m.promotion_spec() is None,
        n.promotion_spec() is None,
        m.from_sq() == n.from_sq(),
        b.role_on(n.to_sq()) == Some(Role::Pawn),
    ensures
        capture_points(b, m, v) == capture_points(b, n, v),
        victim(b, m, v) == v(Role::Pawn),
        victim(b, n, v) == v(Role::Pawn),
{
}

} // verus!
