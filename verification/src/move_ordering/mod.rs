//! The order in which moves are searched: the move of the transposition table,
//! captures and promotions, killers, and quiet moves by what has been learned
//! about them.
pub mod history;
pub mod killers;
pub mod see;
pub mod tt_move;

pub use history::{History, MoveCtx};
pub use killers::Killers;
pub use tt_move::{capture_score, is_capture_or_promotion, victim_value};

use vstd::prelude::*;
use crate::board::state;
use crate::board::{Placement, Position};
use crate::evaluation::params;
use crate::evaluation::params::EvalParams;
use crate::nnue::types::Color;
use crate::types::{MoveList, RawMove, Role};
use history::{known, HIST_MAX};
use tt_move::{CAPTURE_TIER, KILLER1_TIER, KILLER2_TIER, TT_TIER};

verus! {

/// What one search knows about the order of moves.
#[derive(Debug)]
pub struct OrderingTables {
    pub killers: Killers,
    pub history: History,
}

/// There are no killers.
pub open spec fn no_killers(k: Killers) -> bool {
    forall|i: int|
        0 <= i < 136 ==> #[trigger] k.at(i) == (RawMove::made(0, 0, 0), RawMove::made(0, 0, 0))
}

impl OrderingTables {
    /// The tables are complete.
    pub open spec fn wf(&self) -> bool {
        self.history.wf()
    }

    pub fn new() -> (r: OrderingTables)
        ensures
            r.wf(),
            no_killers(r.killers),
            r.history.blank(),
    {
        OrderingTables { killers: Killers::new(), history: History::new() }
    }

    /// Forgets everything.
    pub fn reset(&mut self)
        ensures
            final(self).wf(),
            no_killers(final(self).killers),
            final(self).history.blank(),
    {
        self.killers.reset();
        self.history.clear();
    }

    /// Forgets the killers and the answers to moves, and keeps the rest.
    pub fn new_position(&mut self)
        requires
            old(self).wf(),
        ensures
            final(self).wf(),
            no_killers(final(self).killers),
            forall|i: int|
                0 <= i < 8192 ==> #[trigger] final(self).history.answers()[i] == RawMove::made(
                    0,
                    0,
                    0,
                ),
            final(self).history.quiet() == old(self).history.quiet(),
            final(self).history.lines() == old(self).history.lines(),
            final(self).history.trades() == old(self).history.trades(),
    {
        self.killers.reset();
        self.history.clear_counter();
    }
}

impl Default for OrderingTables {
    fn default() -> (r: Self)
        ensures
            r.wf(),
            no_killers(r.killers),
            r.history.blank(),
    {
        OrderingTables::new()
    }
}

impl Clone for OrderingTables {
    fn clone(&self) -> (r: Self)
        ensures
            r.killers == self.killers,
            r.history.quiet() == self.history.quiet(),
            r.history.answers() == self.history.answers(),
            r.history.lines() == self.history.lines(),
            r.history.trades() == self.history.trades(),
    {
        OrderingTables { killers: self.killers, history: self.history.clone() }
    }
}

// --- the score of a move --------------------------------------------------------------------------

/// What the search is looking at: the move of the transposition table, the ply,
/// and the two moves before.
#[derive(Copy, Clone, Debug)]
pub struct Around {
    pub tt_move: RawMove,
    pub ply: usize,
    pub prev: Option<MoveCtx>,
    pub ant: Option<MoveCtx>,
}

impl Around {
    /// The moves before are moves that exist.
    pub open spec fn wf(self) -> bool {
        known(self.prev) && known(self.ant)
    }
}

/// The score of a capture or promotion.
pub open spec fn noisy_points(b: Placement, m: RawMove, h: History) -> int {
    1000000 + tt_move::capture_points(b, m, params::usual_prices()) + history::adjustment(
        h.trades()[history::trade(b, m)] as int,
    )
}

/// The score of a quiet move that is no killer.
pub open spec fn quiet_points(
    b: Placement,
    turn: Color,
    m: RawMove,
    h: History,
    prev: Option<MoveCtx>,
    ant: Option<MoveCtx>,
) -> int {
    let answer = history::answer_to(h.answers(), turn, prev);
    h.quiet()[history::route(turn, m.from_sq(), m.to_sq())] + (if m == answer {
        32767int
    } else {
        0
    }) + (if b.role_on(m.from_sq()) is Some {
        h.lines()[history::line(
            turn,
            b.role_code(m.from_sq()),
            m.to_sq(),
            history::bucket(prev, ant) as int,
        )] as int
    } else {
        0
    })
}

/// The score of a move.
pub open spec fn points(
    b: Placement,
    turn: Color,
    m: RawMove,
    t: OrderingTables,
    x: Around,
) -> int {
    let k = t.killers.at(killers::entry_of(x.ply as int));
    if x.tt_move != RawMove::made(0, 0, 0) && m == x.tt_move {
        2000000
    } else if state::is_noisy(b)(m) {
        noisy_points(b, m, t.history)
    } else if m == k.0 {
        800000
    } else if m == k.1 {
        799999
    } else {
        quiet_points(b, turn, m, t.history, x.prev, x.ant)
    }
}

/// The score of a quiet move that is no killer.
fn score_quiet(
    board: &Placement,
    side: Color,
    m: RawMove,
    h: &History,
    prev: Option<MoveCtx>,
    ant: Option<MoveCtx>,
) -> (r: i32)
    requires
        h.wf(),
        known(prev),
        known(ant),
    ensures
        r == quiet_points(*board, side, m, *h, prev, ant),
        -100000 <= r <= 100000,
{
    let mut s: i32 = h.history_score(side, m);
    if m == h.counter_move(side, prev) {
        s = s + HIST_MAX;
    }
    if let Some(role) = board.role_at(m.from()) {
        s = s + h.continuation_score(side, role.code() as usize, m.to(), prev, ant);
    }
    s
}

/// The score of a move, by the values that the engine comes with.
fn score_with(
    board: &Placement,
    side: Color,
    m: RawMove,
    tables: &OrderingTables,
    x: &Around,
    p: &EvalParams,
) -> (r: i32)
    requires
        tables.wf(),
        x.wf(),
        params::is_baseline(*p),
    ensures
        r == points(*board, side, m, *tables, *x),
        -70000000 <= r <= 70000000,
{
    if x.tt_move != RawMove::null() && m == x.tt_move {
        return TT_TIER;
    }
    if is_capture_or_promotion(board, m) {
        proof {
            params::law_baseline_prices(*p);
        }
        return CAPTURE_TIER + capture_score(board, m, p) + tables.history.capture_adjustment(
            board,
            m,
        );
    }
    let (k1, k2) = tables.killers.get(x.ply);
    if m == k1 {
        return KILLER1_TIER;
    }
    if m == k2 {
        return KILLER2_TIER;
    }
    score_quiet(board, side, m, &tables.history, x.prev, x.ant)
}

/// The score of a move of a position.
pub fn score_move(
    pos: &Position,
    m: RawMove,
    tt_move: RawMove,
    tables: &OrderingTables,
    ply: usize,
    prev: Option<MoveCtx>,
    ant: Option<MoveCtx>,
) -> (r: i32)
    requires
        tables.wf(),
        known(prev),
        known(ant),
    ensures
        r == points(
            pos.board_spec(),
            pos.facts_spec().turn,
            m,
            *tables,
            (Around { tt_move, ply, prev, ant }),
        ),
{
    let x: Around = Around { tt_move, ply, prev, ant };
    score_with(pos.board(), pos.turn(), m, tables, &x, &EvalParams::baseline())
}

// --- the order --------------------------------------------------------------------------------------

/// The moves stand in the order of their scores, the highest first.
pub open spec fn ordered(
    s: Seq<RawMove>,
    b: Placement,
    turn: Color,
    t: OrderingTables,
    x: Around,
) -> bool {
    forall|i: int, j: int|
        0 <= i < j < s.len() ==> points(b, turn, #[trigger] s[i], t, x) >= points(
            b,
            turn,
            #[trigger] s[j],
            t,
            x,
        )
}

/// Exchanging two moves keeps the moves.
proof fn lemma_swap(s: Seq<RawMove>, i: int, j: int)
    requires
        0 <= i < s.len(),
        0 <= j < s.len(),
    ensures
        s.update(i, s[j]).update(j, s[i]).to_multiset() == s.to_multiset(),
{
    let a = s[i];
    let b = s[j];
    let u = s.update(i, b);
    assert(u =~= s.remove(i).insert(i, b));
    vstd::seq_lib::to_multiset_remove(s, i);
    vstd::seq_lib::to_multiset_insert(s.remove(i), i, b);
    let w = u.update(j, a);
    assert(w =~= u.remove(j).insert(j, a));
    vstd::seq_lib::to_multiset_remove(u, j);
    vstd::seq_lib::to_multiset_insert(u.remove(j), j, a);
    s.to_multiset_ensures();
    assert(s.contains(a));
    if i == j {
        assert(w =~= s);
    } else {
        assert(u[j] == b);
        assert(w.to_multiset() =~= s.to_multiset());
    }
}

/// Puts moves in the order of their scores, without the context of a line.
pub fn order_moves(moves: &mut MoveList, pos: &Position, tables: &OrderingTables, tt_move: RawMove)
    requires
        tables.wf(),
    ensures
        final(moves)@.to_multiset() == old(moves)@.to_multiset(),
        ordered(
            final(moves)@,
            pos.board_spec(),
            pos.facts_spec().turn,
            *tables,
            (Around { tt_move, ply: 0, prev: None, ant: None }),
        ),
{
    order_moves_ctx(moves, pos, tables, tt_move, 0, None, None);
}

/// Puts moves in the order of their scores, the highest first. Moves with the
/// same score may stand in any order.
pub fn order_moves_ctx(
    moves: &mut MoveList,
    pos: &Position,
    tables: &OrderingTables,
    tt_move: RawMove,
    ply: usize,
    prev: Option<MoveCtx>,
    ant: Option<MoveCtx>,
)
    requires
        tables.wf(),
        known(prev),
        known(ant),
    ensures
        final(moves)@.to_multiset() == old(moves)@.to_multiset(),
        ordered(
            final(moves)@,
            pos.board_spec(),
            pos.facts_spec().turn,
            *tables,
            (Around { tt_move, ply, prev, ant }),
        ),
{
    let x: Around = Around { tt_move, ply, prev, ant };
    let p: EvalParams = EvalParams::baseline();
    let board: &Placement = pos.board();
    let side: Color = pos.turn();
    let n: usize = moves.len();
    let mut scores: Vec<i32> = Vec::new();
    let mut i: usize = 0;
    while i < n
        invariant
            tables.wf(),
            x.wf(),
            params::is_baseline(p),
            i <= n,
            n == moves@.len(),
            moves@ == old(moves)@,
            scores@.len() == i,
            forall|k: int|
                0 <= k < i ==> #[trigger] scores@[k] == points(*board, side, moves@[k], *tables, x),
        decreases n - i,
    {
        scores.push(score_with(board, side, moves.get(i), tables, &x, &p));
        i = i + 1;
    }
    i = 0;
    while i < n
        invariant
            i <= n,
            n == moves@.len(),
            n == scores@.len(),
            moves@.to_multiset() == old(moves)@.to_multiset(),
            forall|k: int|
                0 <= k < n ==> #[trigger] scores@[k] == points(*board, side, moves@[k], *tables, x),
            forall|a: int, b: int| 0 <= a < i && a < b < n ==> scores@[a] >= scores@[b],
        decreases n - i,
    {
        let mut best: usize = i;
        let mut j: usize = i + 1;
        while j < n
            invariant
                i < n,
                i <= best < n,
                i < j <= n,
                n == scores@.len(),
                forall|k: int| i <= k < j ==> scores@[best as int] >= #[trigger] scores@[k],
            decreases n - j,
        {
            if scores[j] > scores[best] {
                best = j;
            }
            j = j + 1;
        }
        proof {
            lemma_swap(moves@, i as int, best as int);
        }
        let m: RawMove = moves.get(i);
        let s: i32 = scores[i];
        let t: i32 = scores[best];
        moves.set(i, moves.get(best));
        moves.set(best, m);
        scores.set(i, t);
        scores.set(best, s);
        i = i + 1;
    }
    proof {
        assert forall|a: int, b: int| 0 <= a < b < moves@.len() implies points(
            *board,
            side,
            #[trigger] moves@[a],
            *tables,
            x,
        ) >= points(*board, side, #[trigger] moves@[b], *tables, x) by {
            assert(scores@[a] >= scores@[b]);
        }
    }
}

/// The kind of piece that makes a move.
pub fn moving_role(pos: &Position, m: RawMove) -> (r: Option<Role>)
    ensures
        r == pos.board_spec().role_on(m.from_sq()),
{
    pos.board().role_at(m.from())
}

// --- laws ---------------------------------------------------------------------------------------------

/// The move of the transposition table comes before all other moves: no other
/// score reaches its score.
pub proof fn law_table_move_first(
    b: Placement,
    turn: Color,
    m: RawMove,
    t: OrderingTables,
    x: Around,
)
    requires
        t.wf(),
        x.wf(),
        m != x.tt_move,
    ensures
        points(b, turn, m, t, x) < 2000000,
{
    lemma_quiet_size(b, turn, m, t.history, x.prev, x.ant);
    lemma_noisy_size(b, m, t.history);
}

/// How early a move comes: 3 for the move of the transposition table, 2 for
/// captures and promotions, 1 for killers, 0 for all other moves.
pub open spec fn tier(b: Placement, m: RawMove, t: OrderingTables, x: Around) -> int {
    let k = t.killers.at(killers::entry_of(x.ply as int));
    if x.tt_move != RawMove::made(0, 0, 0) && m == x.tt_move {
        3
    } else if state::is_noisy(b)(m) {
        2
    } else if m == k.0 || m == k.1 {
        1
    } else {
        0
    }
}

/// The move of the transposition table comes before captures and promotions,
/// these come before killers, and killers before all other moves.
pub proof fn law_tiers(
    b: Placement,
    turn: Color,
    first: RawMove,
    second: RawMove,
    t: OrderingTables,
    x: Around,
)
    requires
        t.wf(),
        x.wf(),
        tier(b, first, t, x) > tier(b, second, t, x),
    ensures
        points(b, turn, first, t, x) > points(b, turn, second, t, x),
{
    lemma_noisy_size(b, first, t.history);
    lemma_noisy_size(b, second, t.history);
    lemma_quiet_size(b, turn, second, t.history, x.prev, x.ant);
}

/// What captures have learned never lifts the capture of a pawn over that of a
/// rook or a queen.
pub proof fn law_victims_first(
    b: Placement,
    m: RawMove,
    h: History,
    c: Placement,
    n: RawMove,
    k: History,
)
    requires
        h.wf(),
        k.wf(),
        m.promotion_spec() is None,
        n.promotion_spec() is None,
        m.kind_spec() == 2 || b.role_on(m.to_sq()) == Some(Role::Pawn),
        n.kind_spec() != 2,
        c.role_on(n.to_sq()) == Some(Role::Rook) || c.role_on(n.to_sq()) == Some(Role::Queen),
    ensures
        noisy_points(b, m, h) < noisy_points(c, n, k),
{
    let v = params::usual_prices();
    assert(v(Role::Pawn) == 100 && v(Role::Rook) == 500 && v(Role::Queen) == 900);
    lemma_worth_on(b, m.from_sq());
    lemma_worth_on(c, n.from_sq());
}

proof fn lemma_worth_on(b: Placement, s: int)
    ensures
        0 <= tt_move::worth_on(b, s, params::usual_prices()) <= 900,
{
    let v = params::usual_prices();
    assert(v(Role::Pawn) == 100 && v(Role::Knight) == 320 && v(Role::Bishop) == 330);
    assert(v(Role::Rook) == 500 && v(Role::Queen) == 900 && v(Role::King) == 0);
}

proof fn lemma_noisy_size(b: Placement, m: RawMove, h: History)
    ensures
        900000 <= noisy_points(b, m, h) <= 1100000,
{
    let v = params::usual_prices();
    assert(v(Role::Pawn) == 100 && v(Role::Knight) == 320 && v(Role::Bishop) == 330);
    assert(v(Role::Rook) == 500 && v(Role::Queen) == 900 && v(Role::King) == 0);
    lemma_worth_on(b, m.from_sq());
    lemma_worth_on(b, m.to_sq());
}

proof fn lemma_quiet_size(
    b: Placement,
    turn: Color,
    m: RawMove,
    h: History,
    prev: Option<MoveCtx>,
    ant: Option<MoveCtx>,
)
    ensures
        -100000 <= quiet_points(b, turn, m, h, prev, ant) <= 100000,
{
}

/// Two histories differ at most in what the move of a piece to a square has learned after
/// a line.
pub open spec fn same_but_for_line(h: History, k: History, place: int) -> bool {
    &&& h.quiet() == k.quiet()
    &&& h.answers() == k.answers()
    &&& h.lines().len() == k.lines().len()
    &&& forall|i: int| 0 <= i < h.lines().len() && i != place ==> #[trigger] h.lines()[i] == k.lines()[i]
}

/// The score of a quiet move that is no killer grows by as much as what was learned of its
/// piece and last square after the line.
pub proof fn law_lines_count_for_a_move(
    b: Placement,
    turn: Color,
    m: RawMove,
    role: Role,
    h: History,
    k: History,
    prev: Option<MoveCtx>,
    ant: Option<MoveCtx>,
)
    requires
        h.wf(),
        b.role_on(m.from_sq()) == Some(role),
        same_but_for_line(
            h,
            k,
            history::line(
                turn,
                role.code_spec() as int,
                m.to_sq(),
                history::bucket(prev, ant) as int,
            ),
        ),
    ensures
        ({
            let i = history::line(
                turn,
                role.code_spec() as int,
                m.to_sq(),
                history::bucket(prev, ant) as int,
            );
            &&& quiet_points(b, turn, m, k, prev, ant) - quiet_points(b, turn, m, h, prev, ant)
                == k.lines()[i] - h.lines()[i]
            &&& h.lines()[i] < k.lines()[i] ==> quiet_points(b, turn, m, h, prev, ant)
                < quiet_points(b, turn, m, k, prev, ant)
        }),
{
}

/// A reward for a move after a line never puts it behind a quiet move that it was ahead of:
/// no other move gains more.
pub proof fn law_line_rewards_keep_ahead(
    b: Placement,
    turn: Color,
    m: RawMove,
    n: RawMove,
    role: Role,
    h: History,
    k: History,
    prev: Option<MoveCtx>,
    ant: Option<MoveCtx>,
    reward: int,
)
    requires
        h.wf(),
        b.role_on(m.from_sq()) == Some(role),
        0 <= reward <= 16384,
        h.quiet() == k.quiet(),
        h.answers() == k.answers(),
        ({
            let i = history::line(
                turn,
                role.code_spec() as int,
                m.to_sq(),
                history::bucket(prev, ant) as int,
            );
            &&& -16384 <= h.lines()[i] <= 16384
            &&& k.lines() == history::taught(h.lines(), i, reward)
        }),
        quiet_points(b, turn, m, h, prev, ant) >= quiet_points(b, turn, n, h, prev, ant),
    ensures
        quiet_points(b, turn, m, k, prev, ant) >= quiet_points(b, turn, n, k, prev, ant),
        quiet_points(b, turn, m, k, prev, ant) >= quiet_points(b, turn, m, h, prev, ant),
{
    let l = history::bucket(prev, ant) as int;
    let i = history::line(turn, role.code_spec() as int, m.to_sq(), l);
    let v = h.lines()[i] as int;
    history::law_rewards_lift(v, v, reward);
    history::law_rewards_converge(v, reward);
    history::law_lines_go_by_piece_and_square(prev, ant, prev, ant);
    history::law_lines_apart(turn, role.code_spec() as int, m.to_sq(), l, turn, 0, 0, 0);
    history::law_lines_apart(
        turn,
        role.code_spec() as int,
        m.to_sq(),
        l,
        turn,
        b.role_code(n.from_sq()),
        n.to_sq(),
        l,
    );
    history::law_lines_apart(turn, b.role_code(n.from_sq()), n.to_sq(), l, turn, 0, 0, 0);
}

/// The score of a quiet move that is no killer grows by as much as what was learned of its
/// squares, and what was learned of the other side's moves, or of other squares, does not
/// count.
pub proof fn law_history_counts_for_a_move(
    b: Placement,
    turn: Color,
    m: RawMove,
    h: History,
    k: History,
    prev: Option<MoveCtx>,
    ant: Option<MoveCtx>,
)
    requires
        h.answers() == k.answers(),
        h.lines() == k.lines(),
    ensures
        quiet_points(b, turn, m, k, prev, ant) - quiet_points(b, turn, m, h, prev, ant)
            == k.quiet()[history::route(turn, m.from_sq(), m.to_sq())]
            - h.quiet()[history::route(turn, m.from_sq(), m.to_sq())],
{
}

/// A move that is the answer to the move before it comes before what it would be otherwise:
/// by the most that a move can learn.
pub proof fn law_answers_come_early(
    b: Placement,
    turn: Color,
    m: RawMove,
    h: History,
    k: History,
    before: MoveCtx,
    ant: Option<MoveCtx>,
)
    requires
        h.quiet() == k.quiet(),
        h.lines() == k.lines(),
        h.answers()[history::route(turn, before.from as int, before.to as int)] == m,
        k.answers()[history::route(turn, before.from as int, before.to as int)] != m,
    ensures
        quiet_points(b, turn, m, h, Some(before), ant) == quiet_points(
            b,
            turn,
            m,
            k,
            Some(before),
            ant,
        ) + 32767,
{
}

/// What captures have learned lifts a capture, and of two captures that have learned the same,
/// the one that wins more comes first.
pub proof fn law_captures_learn(b: Placement, m: RawMove, n: RawMove, h: History, k: History)
    requires
        h.wf(),
        k.wf(),
    ensures
        h.trades()[history::trade(b, m)] <= k.trades()[history::trade(b, m)] ==> noisy_points(
            b,
            m,
            h,
        ) <= noisy_points(b, m, k),
        h.trades()[history::trade(b, m)] == h.trades()[history::trade(b, n)] ==> (noisy_points(
            b,
            m,
            h,
        ) - noisy_points(b, n, h) == tt_move::capture_points(b, m, params::usual_prices())
            - tt_move::capture_points(b, n, params::usual_prices())),
{
}

/// The latest killer comes before the second.
pub proof fn law_latest_killer_first(
    b: Placement,
    turn: Color,
    t: OrderingTables,
    x: Around,
    m: RawMove,
    n: RawMove,
)
    requires
        tier(b, m, t, x) == 1,
        tier(b, n, t, x) == 1,
        m == t.killers.at(killers::entry_of(x.ply as int)).0,
        n != m,
    ensures
        points(b, turn, m, t, x) > points(b, turn, n, t, x),
{
}

} // verus!
