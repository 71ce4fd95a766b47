//! What the search has learned about moves: how quiet moves did, which move
//! answered which, how moves did after the two moves before them, and how
//! captures did.
//!
//! A reward pulls a value towards one side, the more weakly the further it is
//! already there.
use vstd::prelude::*;
use crate::arith;
use crate::board::{Placement, Position};
use crate::nnue::types::Color;
use crate::types::RawMove;

verus! {

/// The largest value.
pub const HIST_MAX: i32 = 32_767;

/// What captures have learned is divided by this.
pub const CAP_HIST_DIV: i32 = 4;

/// The most that the history of captures adds to or takes off a score.
pub const CAP_HIST_MAX_ADJ: i32 = 2047;

/// A move that was played: the code of the piece, and its squares.
#[derive(Copy, Clone, Debug, PartialEq, Eq, Structural)]
pub struct MoveCtx {
    pub piece: usize,
    pub from: usize,
    pub to: usize,
}

impl MoveCtx {
    /// The piece and the squares exist.
    pub open spec fn wf(self) -> bool {
        self.piece < 7 && self.from < 64 && self.to < 64
    }

    /// The move `m` of a position; nothing where no piece stands on its first
    /// square.
    pub fn of(pos: &Position, m: RawMove) -> (r: Option<MoveCtx>)
        ensures
            r is Some <==> pos.board_spec().role_on(m.from_sq()) is Some,
            r matches Some(c) ==> c.wf() && c.piece == pos.board_spec().role_code(m.from_sq())
                && c.from == m.from_sq() && c.to == m.to_sq(),
    {
        match pos.board().role_at(m.from()) {
            Some(role) => Some(
                MoveCtx { piece: role.code() as usize, from: m.from(), to: m.to() },
            ),
            None => None,
        }
    }
}

/// There is no move, or it is one that exists.
pub open spec fn known(c: Option<MoveCtx>) -> bool {
    c matches Some(x) ==> x.wf()
}

// --- rewards ----------------------------------------------------------------------------------

/// The reward for a depth.
pub fn bonus(depth_remaining: i32) -> (r: i32)
    requires
        depth_remaining * depth_remaining <= i32::MAX,
    ensures
        r == depth_remaining * depth_remaining,
        r >= 0,
{
    proof {
        assert(depth_remaining * depth_remaining >= 0) by (nonlinear_arith);
    }
    depth_remaining * depth_remaining
}

/// The size of a number.
pub open spec fn size(x: int) -> int {
    if x < 0 {
        -x
    } else {
        x
    }
}

/// A value after a reward.
pub open spec fn pulled(value: int, reward: int) -> int {
    arith::within(
        value + reward - arith::trunc_div(value * size(reward), 16384),
        -32767,
        32767,
    )
}

/// A reward can be given without overflow.
pub open spec fn pullable(value: int, reward: int) -> bool {
    &&& -i32::MAX <= reward <= i32::MAX
    &&& i32::MIN <= value * size(reward) <= i32::MAX
    &&& i32::MIN <= value + reward <= i32::MAX
    &&& i32::MIN <= value + reward - arith::trunc_div(value * size(reward), 16384) <= i32::MAX
}

/// Gives a reward.
fn gravity(value: i16, reward: i32) -> (r: i16)
    requires
        pullable(value as int, reward as int),
    ensures
        r == pulled(value as int, reward as int),
{
    let cur: i32 = value as i32;
    let abs: i32 = if reward < 0 {
        -reward
    } else {
        reward
    };
    let next: i32 = cur + reward - cur * abs / 16_384;
    arith::clamp_i32(next, -HIST_MAX, HIST_MAX) as i16
}

/// Rewards of ordinary size can always be given.
pub proof fn law_rewards_fit(value: i16, reward: int)
    requires
        -65536 <= reward <= 65536,
        -32767 <= value,
    ensures
        pullable(value as int, reward),
{
    let x = value * size(reward);
    assert(-2147483648 <= x <= 2147483647) by (nonlinear_arith)
        requires
            -32767 <= value <= 32767,
            0 <= size(reward) <= 65536,
            x == value * size(reward),
    ;
}

/// Values that stay within 16384 keep within it under rewards within 16384: a
/// reward pulls towards that bound and not past it.
pub proof fn law_rewards_converge(value: int, reward: int)
    requires
        -16384 <= value <= 16384,
        -16384 <= reward <= 16384,
    ensures
        -16384 <= pulled(value, reward) <= 16384,
{
    let b = size(reward);
    let v = size(value);
    let q = (v * b) / 16384;
    assert(v * b <= 16384 * v) by (nonlinear_arith)
        requires
            0 <= v,
            b <= 16384,
    ;
    assert(v * b >= 0) by (nonlinear_arith)
        requires
            0 <= v,
            0 <= b,
    ;
    // (16384 - v) * (16384 - b) >= 0
    assert(16384 * 16384 - 16384 * v - 16384 * b + v * b >= 0) by (nonlinear_arith)
        requires
            0 <= v <= 16384,
            0 <= b <= 16384,
    ;
    assert(16384 * q <= v * b < 16384 * q + 16384);
    assert(v + b - q <= 16384);
    assert(q <= v);
    if value >= 0 {
        assert(value * b == v * b);
        assert(arith::trunc_div(value * b, 16384) == q);
    } else {
        assert(value * b == -(v * b)) by (nonlinear_arith)
            requires
                v == -value,
        ;
        assert(arith::trunc_div(value * b, 16384) == -q);
    }
}

/// A first reward is taken over whole.
pub proof fn law_first_reward(reward: int)
    ensures
        pulled(0, reward) == arith::within(reward, -32767, 32767),
{
    assert(0 * size(reward) == 0) by (nonlinear_arith);
}

/// Values after a reward for the one at a place.
pub open spec fn taught(values: Seq<i16>, place: int, reward: int) -> Seq<i16> {
    values.update(place, pulled(values[place] as int, reward) as i16)
}

/// The answers after that to a move has been recorded.
pub open spec fn answered(
    answers: Seq<RawMove>,
    side: Color,
    prev: Option<MoveCtx>,
    m: RawMove,
) -> Seq<RawMove> {
    match prev {
        Some(p) => answers.update(route(side, p.from as int, p.to as int), m),
        None => answers,
    }
}

/// The answer to a move; no move where there is none before.
pub open spec fn answer_to(answers: Seq<RawMove>, side: Color, prev: Option<MoveCtx>) -> RawMove {
    match prev {
        Some(p) => answers[route(side, p.from as int, p.to as int)],
        None => RawMove::made(0, 0, 0),
    }
}

// --- where things stand ------------------------------------------------------------------------

/// The place of a pair of squares.
pub open spec fn route(side: Color, from: int, to: int) -> int {
    4096 * side.index() + 64 * from + to
}

/// The place of a piece and its last square after a line.
pub open spec fn line(side: Color, piece: int, to: int, bucket: int) -> int {
    458752 * side.index() + 1024 * (64 * piece + to) + bucket
}

/// The number of a piece and its last square.
pub open spec fn key(c: Option<MoveCtx>) -> u64 {
    match c {
        Some(x) => (64 * x.piece + x.to) as u64,
        None => 0,
    }
}

/// The bucket of the two moves before.
pub open spec fn bucket(prev: Option<MoveCtx>, ant: Option<MoveCtx>) -> u64 {
    ((key(prev).wrapping_mul(0x9E37_79B9_7F4A_7C15) ^ key(ant).wrapping_mul(0xBF58_476D_1CE4_E5B9))
        >> 32) & 1023
}

/// The code of what a move captures: a pawn en passant, 0 for nothing.
pub open spec fn victim_code(b: Placement, m: RawMove) -> int {
    if m.kind_spec() == 2 {
        1
    } else {
        b.role_code(m.to_sq())
    }
}

/// The side of the piece that moves; White where there is none.
pub open spec fn mover(b: Placement, m: RawMove) -> Color {
    if b.piece_code(m.from_sq()) > 8 {
        Color::Black
    } else {
        Color::White
    }
}

/// The place of a capture.
pub open spec fn trade(b: Placement, m: RawMove) -> int {
    64 * mover(b, m).index() + 8 * victim_code(b, m) + b.role_code(m.from_sq())
}

/// The place of a pair of squares.
fn route_of(side: Color, from: usize, to: usize) -> (r: usize)
    requires
        from < 64,
        to < 64,
    ensures
        r == route(side, from as int, to as int),
        r < 8192,
{
    4096 * side.idx() + 64 * from + to
}

/// The place of a piece and its last square after a line.
fn line_of(side: Color, piece: usize, to: usize, prev: Option<MoveCtx>, ant: Option<MoveCtx>) -> (r:
    usize)
    requires
        piece < 7,
        to < 64,
        known(prev),
        known(ant),
    ensures
        r == line(side, piece as int, to as int, bucket(prev, ant) as int),
        r < 917504,
{
    458752 * side.idx() + 1024 * (64 * piece + to) + cont_bucket(prev, ant)
}

/// The number of a piece and its last square.
fn key_of(c: Option<MoveCtx>) -> (r: u64)
    requires
        known(c),
    ensures
        r == key(c),
{
    match c {
        Some(x) => (64 * x.piece + x.to) as u64,
        None => 0,
    }
}

/// The bucket of the two moves before.
fn cont_bucket(prev: Option<MoveCtx>, ant: Option<MoveCtx>) -> (r: usize)
    requires
        known(prev),
        known(ant),
    ensures
        r == bucket(prev, ant),
        r < 1024,
{
    let a: u64 = key_of(prev);
    let b: u64 = key_of(ant);
    let h: u64 = a.wrapping_mul(0x9E37_79B9_7F4A_7C15) ^ b.wrapping_mul(0xBF58_476D_1CE4_E5B9);
    let x: u64 = (h >> 32) & 1023;
    assert(x <= 1023) by (bit_vector)
        requires
            x == (h >> 32) & 1023,
    ;
    x as usize
}

/// The place of a capture.
fn trade_of(board: &Placement, m: RawMove) -> (r: usize)
    ensures
        r == trade(*board, m),
        r < 128,
{
    let code: u8 = board.code_at(m.from());
    let side: usize = if code > 8 {
        1
    } else {
        0
    };
    let attacker: usize = match board.role_at(m.from()) {
        Some(role) => role.code() as usize,
        None => 0,
    };
    64 * side + 8 * victim_role(board, m) + attacker
}

/// The code of what a move captures.
fn victim_role(board: &Placement, m: RawMove) -> (r: usize)
    ensures
        r == victim_code(*board, m),
        r < 7,
{
    if m.is_en_passant() {
        1
    } else {
        match board.role_at(m.to()) {
            Some(role) => role.code() as usize,
            None => 0,
        }
    }
}

// --- the tables ---------------------------------------------------------------------------------

/// What the search has learned about moves.
#[derive(Debug)]
pub struct History {
    main: Vec<i16>,
    counter: Vec<RawMove>,
    continuation: Vec<i16>,
    capture: Vec<i16>,
}

/// `n` zeros.
fn zeros(n: usize) -> (r: Vec<i16>)
    ensures
        r@.len() == n,
        forall|i: int| 0 <= i < n ==> #[trigger] r@[i] == 0,
{
    let mut v: Vec<i16> = Vec::new();
    while v.len() < n
        invariant
            v@.len() <= n,
            forall|i: int| 0 <= i < v@.len() ==> #[trigger] v@[i] == 0,
        decreases n - v@.len(),
    {
        v.push(0);
    }
    v
}

/// `n` times no move.
fn blanks(n: usize) -> (r: Vec<RawMove>)
    ensures
        r@.len() == n,
        forall|i: int| 0 <= i < n ==> #[trigger] r@[i] == RawMove::made(0, 0, 0),
{
    let mut v: Vec<RawMove> = Vec::new();
    while v.len() < n
        invariant
            v@.len() <= n,
            forall|i: int| 0 <= i < v@.len() ==> #[trigger] v@[i] == RawMove::made(0, 0, 0),
        decreases n - v@.len(),
    {
        v.push(RawMove::null());
    }
    v
}

impl History {
    /// What quiet moves have learned, by side and squares.
    pub closed spec fn quiet(&self) -> Seq<i16> {
        self.main@
    }

    /// The answers to moves, by side and squares of the move.
    pub closed spec fn answers(&self) -> Seq<RawMove> {
        self.counter@
    }

    /// What moves have learned after a line.
    pub closed spec fn lines(&self) -> Seq<i16> {
        self.continuation@
    }

    /// What captures have learned.
    pub closed spec fn trades(&self) -> Seq<i16> {
        self.capture@
    }

    /// The tables are complete, and no value is below the least one.
    pub open spec fn wf(&self) -> bool {
        &&& self.quiet().len() == 8192
        &&& self.answers().len() == 8192
        &&& self.lines().len() == 917504
        &&& self.trades().len() == 128
        &&& forall|i: int| 0 <= i < 8192 ==> -32767 <= #[trigger] self.quiet()[i]
        &&& forall|i: int| 0 <= i < 917504 ==> -32767 <= #[trigger] self.lines()[i]
        &&& forall|i: int| 0 <= i < 128 ==> -32767 <= #[trigger] self.trades()[i]
    }

    /// Nothing has been learned.
    pub open spec fn blank(&self) -> bool {
        &&& forall|i: int| 0 <= i < 8192 ==> #[trigger] self.quiet()[i] == 0
        &&& forall|i: int| 0 <= i < 8192 ==> #[trigger] self.answers()[i] == RawMove::made(0, 0, 0)
        &&& forall|i: int| 0 <= i < 917504 ==> #[trigger] self.lines()[i] == 0
        &&& forall|i: int| 0 <= i < 128 ==> #[trigger] self.trades()[i] == 0
    }

    pub fn new() -> (r: History)
        ensures
            r.wf(),
            r.blank(),
    {
        History {
            main: zeros(8192),
            counter: blanks(8192),
            continuation: zeros(917504),
            capture: zeros(128),
        }
    }

    /// Forgets everything.
    pub fn clear(&mut self)
        ensures
            final(self).wf(),
            final(self).blank(),
    {
        *self = History::new();
    }

    /// Forgets the answers to moves.
    pub fn clear_counter(&mut self)
        requires
            old(self).wf(),
        ensures
            final(self).wf(),
            forall|i: int|
                0 <= i < 8192 ==> #[trigger] final(self).answers()[i] == RawMove::made(0, 0, 0),
            final(self).quiet() == old(self).quiet(),
            final(self).lines() == old(self).lines(),
            final(self).trades() == old(self).trades(),
    {
        self.counter = blanks(8192);
    }

    // --- reading ----------------------------------------------------------------------------------

    /// What a quiet move has learned.
    pub fn history_score(&self, side: Color, m: RawMove) -> (r: i32)
        requires
            self.wf(),
        ensures
            r == self.quiet()[route(side, m.from_sq(), m.to_sq())],
            -32767 <= r <= 32767,
    {
        self.main[route_of(side, m.from(), m.to())] as i32
    }

    /// The answer to a move; no move where none is known.
    pub fn counter_move(&self, side: Color, prev: Option<MoveCtx>) -> (r: RawMove)
        requires
            self.wf(),
            known(prev),
        ensures
            r == answer_to(self.answers(), side, prev),
    {
        match prev {
            Some(p) => self.counter[route_of(side, p.from, p.to)],
            None => RawMove::null(),
        }
    }

    /// What a move has learned after the two moves before it.
    pub fn continuation_score(
        &self,
        side: Color,
        piece: usize,
        to: usize,
        prev: Option<MoveCtx>,
        ant: Option<MoveCtx>,
    ) -> (r: i32)
        requires
            self.wf(),
            piece < 7,
            to < 64,
            known(prev),
            known(ant),
        ensures
            r == self.lines()[line(side, piece as int, to as int, bucket(prev, ant) as int)],
            -32767 <= r <= 32767,
    {
        self.continuation[line_of(side, piece, to, prev, ant)] as i32
    }

    /// What the history of captures adds to the score of a move.
    pub fn capture_adjustment(&self, board: &Placement, m: RawMove) -> (r: i32)
        requires
            self.wf(),
        ensures
            r == adjustment(self.trades()[trade(*board, m)] as int),
            -CAP_HIST_MAX_ADJ <= r <= CAP_HIST_MAX_ADJ,
    {
        let v: i32 = self.capture[trade_of(board, m)] as i32 / CAP_HIST_DIV;
        arith::clamp_i32(v, -CAP_HIST_MAX_ADJ, CAP_HIST_MAX_ADJ)
    }

    // --- learning ---------------------------------------------------------------------------------

    /// Rewards a quiet move.
    pub fn update_history(&mut self, side: Color, m: RawMove, bonus_pts: i32)
        requires
            old(self).wf(),
            pullable(
                old(self).quiet()[route(side, m.from_sq(), m.to_sq())] as int,
                bonus_pts as int,
            ),
        ensures
            final(self).wf(),
            final(self).quiet() == taught(
                old(self).quiet(),
                route(side, m.from_sq(), m.to_sq()),
                bonus_pts as int,
            ),
            final(self).answers() == old(self).answers(),
            final(self).lines() == old(self).lines(),
            final(self).trades() == old(self).trades(),
    {
        let i: usize = route_of(side, m.from(), m.to());
        let x: i16 = gravity(self.main[i], bonus_pts);
        self.main[i] = x;
    }

    /// Records the answer to a move.
    pub fn set_counter_move(&mut self, side: Color, prev: Option<MoveCtx>, m: RawMove)
        requires
            old(self).wf(),
            known(prev),
        ensures
            final(self).wf(),
            final(self).answers() == answered(old(self).answers(), side, prev, m),
            final(self).quiet() == old(self).quiet(),
            final(self).lines() == old(self).lines(),
            final(self).trades() == old(self).trades(),
    {
        if let Some(p) = prev {
            let i: usize = route_of(side, p.from, p.to);
            self.counter[i] = m;
        }
    }

    /// Rewards a move after the two moves before it.
    pub fn update_continuation(
        &mut self,
        side: Color,
        piece: usize,
        to: usize,
        prev: Option<MoveCtx>,
        ant: Option<MoveCtx>,
        bonus_pts: i32,
    )
        requires
            old(self).wf(),
            piece < 7,
            to < 64,
            known(prev),
            known(ant),
            pullable(
                old(self).lines()[line(
                    side,
                    piece as int,
                    to as int,
                    bucket(prev, ant) as int,
                )] as int,
                bonus_pts as int,
            ),
        ensures
            final(self).wf(),
            final(self).lines() == taught(
                old(self).lines(),
                line(side, piece as int, to as int, bucket(prev, ant) as int),
                bonus_pts as int,
            ),
            final(self).quiet() == old(self).quiet(),
            final(self).answers() == old(self).answers(),
            final(self).trades() == old(self).trades(),
    {
        let i: usize = line_of(side, piece, to, prev, ant);
        let x: i16 = gravity(self.continuation[i], bonus_pts);
        self.continuation[i] = x;
    }

    /// Rewards a capture; a move that captures nothing, or that no piece makes,
    /// changes nothing.
    pub fn update_capture(&mut self, board: &Placement, m: RawMove, bonus_pts: i32)
        requires
            old(self).wf(),
            pullable(old(self).trades()[trade(*board, m)] as int, bonus_pts as int),
        ensures
            final(self).wf(),
            final(self).trades() == (if victim_code(*board, m) == 0 || board.role_code(m.from_sq())
                == 0 {
                old(self).trades()
            } else {
                taught(old(self).trades(), trade(*board, m), bonus_pts as int)
            }),
            final(self).quiet() == old(self).quiet(),
            final(self).answers() == old(self).answers(),
            final(self).lines() == old(self).lines(),
    {
        if victim_role(board, m) == 0 || board.role_at(m.from()).is_none() {
            return ;
        }
        let i: usize = trade_of(board, m);
        let x: i16 = gravity(self.capture[i], bonus_pts);
        self.capture[i] = x;
    }
}

/// What a value of the history of captures adds to a score.
pub open spec fn adjustment(v: int) -> int {
    arith::within(arith::trunc_div(v, 4), -2047, 2047)
}

impl Default for History {
    fn default() -> (r: Self)
        ensures
            r.wf(),
            r.blank(),
    {
        History::new()
    }
}

impl Clone for History {
    fn clone(&self) -> (r: Self)
        ensures
            r.quiet() == self.quiet(),
            r.answers() == self.answers(),
            r.lines() == self.lines(),
            r.trades() == self.trades(),
    {
        History {
            main: self.main.clone(),
            counter: self.counter.clone(),
            continuation: self.continuation.clone(),
            capture: self.capture.clone(),
        }
    }
}

// --- laws ---------------------------------------------------------------------------------------

/// What was recorded as the answer to a move is read back for it, and the answers
/// to other moves, and of the other side, stay.
pub proof fn law_answer_reads_back(
    before: Seq<RawMove>,
    side: Color,
    p: MoveCtx,
    m: RawMove,
    other: Color,
    q: MoveCtx,
)
    requires
        before.len() == 8192,
        p.wf(),
        q.wf(),
    ensures
        ({
            let after = answered(before, side, Some(p), m);
            answer_to(after, other, Some(q)) == (if other == side && q.from == p.from && q.to
                == p.to {
                m
            } else {
                answer_to(before, other, Some(q))
            })
        }),
{
}

/// The places of quiet moves of two sides are different, and so are those of
/// moves with different squares.
pub proof fn law_routes_apart(a: Color, f: int, t: int, b: Color, g: int, u: int)
    requires
        0 <= f < 64,
        0 <= t < 64,
        0 <= g < 64,
        0 <= u < 64,
    ensures
        route(a, f, t) == route(b, g, u) <==> a == b && f == g && t == u,
        0 <= route(a, f, t) < 8192,
{
}

/// A reward lifts a value and a penalty takes it down, unless it has gone as far as it
/// can; the higher value stays the higher one.
pub proof fn law_rewards_lift(value: int, other: int, reward: int)
    requires
        -16384 <= value <= other <= 16384,
        0 <= reward <= 16384,
    ensures
        pulled(value, reward) >= value,
        value < 16384 && reward > 0 ==> pulled(value, reward) > value,
        pulled(value, -reward) <= value,
        value > -16384 && reward > 0 ==> pulled(value, -reward) < value,
        pulled(value, reward) <= pulled(other, reward),
        pulled(value, -reward) <= pulled(other, -reward),
{
    lemma_pulled(value, reward);
    lemma_pulled(other, reward);
    let x = value * reward;
    let y = other * reward;
    assert(0 <= y - x <= 16384 * (other - value)) by (nonlinear_arith)
        requires
            x == value * reward,
            y == other * reward,
            value <= other,
            0 <= reward <= 16384,
    ;
    assert(x <= 16384 * reward && x >= -16384 * reward) by (nonlinear_arith)
        requires
            x == value * reward,
            -16384 <= value <= 16384,
            0 <= reward,
    ;
    if value < 16384 && reward > 0 {
        assert(x < 16384 * reward) by (nonlinear_arith)
            requires
                x == value * reward,
                value < 16384,
                0 < reward,
        ;
    }
    if value > -16384 && reward > 0 {
        assert(x > -16384 * reward) by (nonlinear_arith)
            requires
                x == value * reward,
                value > -16384,
                0 < reward,
        ;
    }
}

proof fn lemma_pulled(value: int, reward: int)
    requires
        -16384 <= value <= 16384,
        0 <= reward <= 16384,
    ensures
        pulled(value, reward) == value + reward - arith::trunc_div(value * reward, 16384),
        pulled(value, -reward) == value - reward - arith::trunc_div(value * reward, 16384),
{
    law_rewards_converge(value, reward);
    law_rewards_converge(value, -reward);
    assert(size(-reward) == reward && size(reward) == reward);
    let x = value * reward;
    assert(-268435456 <= x <= 268435456) by (nonlinear_arith)
        requires
            x == value * reward,
            -16384 <= value <= 16384,
            0 <= reward <= 16384,
    ;
}

/// The places of moves after a line are different for the two sides, for different
/// pieces, for different squares and for different lines.
pub proof fn law_lines_apart(
    a: Color,
    p: int,
    t: int,
    k: int,
    b: Color,
    q: int,
    u: int,
    l: int,
)
    requires
        0 <= p < 7,
        0 <= t < 64,
        0 <= k < 1024,
        0 <= q < 7,
        0 <= u < 64,
        0 <= l < 1024,
    ensures
        line(a, p, t, k) == line(b, q, u, l) <==> a == b && p == q && t == u && k == l,
        0 <= line(a, p, t, k) < 917504,
{
}

/// The number of a line is below 1024, and is the same for every way to write the
/// same two moves: only the pieces and their last squares count.
pub proof fn law_lines_go_by_piece_and_square(
    prev: Option<MoveCtx>,
    ant: Option<MoveCtx>,
    prev2: Option<MoveCtx>,
    ant2: Option<MoveCtx>,
)
    requires
        prev is Some <==> prev2 is Some,
        prev matches Some(x) ==> (prev2 matches Some(y) && x.piece == y.piece && x.to == y.to),
        ant is Some <==> ant2 is Some,
        ant matches Some(x) ==> (ant2 matches Some(y) && x.piece == y.piece && x.to == y.to),
    ensures
        bucket(prev, ant) == bucket(prev2, ant2),
        bucket(prev, ant) < 1024,
{
    let h: u64 = (key(prev).wrapping_mul(0x9E37_79B9_7F4A_7C15) ^ key(ant).wrapping_mul(
        0xBF58_476D_1CE4_E5B9,
    )) >> 32;
    assert(h & 1023 < 1024) by (bit_vector);
}

/// Captures are told apart by the side that captures and by the two kinds of piece.
pub proof fn law_trades_apart(b: Placement, m: RawMove, c: Placement, n: RawMove)
    ensures
        trade(b, m) == trade(c, n) <==> mover(b, m) == mover(c, n) && victim_code(b, m)
            == victim_code(c, n) && b.role_code(m.from_sq()) == c.role_code(n.from_sq()),
        0 <= trade(b, m) < 128,
        m.kind_spec() == 2 ==> victim_code(b, m) == 1,
        m.kind_spec() != 2 ==> (victim_code(b, m) == 0 <==> b.role_on(m.to_sq()) is None),
{
}

/// What captures have learned counts a quarter: more never counts less, and within
/// bounds four count as one.
pub proof fn law_adjustments(v: int, w: int)
    requires
        v <= w,
    ensures
        adjustment(v) <= adjustment(w),
        -2047 <= adjustment(v) <= 2047,
        -2047 <= v <= 2047 ==> adjustment(4 * v) == v,
        adjustment(-v) == -adjustment(v),
{
}

/// A reward lifts the value that it is given to and a penalty takes it down, unless the value has
/// gone as far as it can; the values at other places stay.
pub proof fn law_rewards_are_learned(values: Seq<i16>, place: int, reward: int, i: int)
    requires
        0 <= place < values.len(),
        0 <= i < values.len(),
        -16384 <= values[place] <= 16384,
        -16384 <= reward <= 16384,
    ensures
        ({
            let after = taught(values, place, reward);
            &&& after.len() == values.len()
            &&& reward > 0 && values[place] < 16384 ==> after[place] > values[place]
            &&& reward < 0 && values[place] > -16384 ==> after[place] < values[place]
            &&& values[place] == 0 ==> after[place] == reward
            &&& -16384 <= after[place] <= 16384
            &&& i != place ==> after[i] == values[i]
        }),
{
    let v = values[place] as int;
    law_rewards_converge(v, reward);
    law_first_reward(reward);
    if reward >= 0 {
        law_rewards_lift(v, v, reward);
    } else {
        law_rewards_lift(v, v, -reward);
    }
}

} // verus!
