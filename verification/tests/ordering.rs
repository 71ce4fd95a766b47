//! The order of moves: captures, killers, what history has learned, exchanges.
use morstilia::board::Position;
use morstilia::evaluation::EvalParams;
use morstilia::move_ordering::history::{bonus, History, MoveCtx, CAP_HIST_MAX_ADJ, HIST_MAX};
use morstilia::move_ordering::killers::Killers;
use morstilia::move_ordering::see::{see, see_ge};
use morstilia::move_ordering::tt_move::{
    capture_score, is_capture_or_promotion, victim_value, CAPTURE_TIER, KILLER1_TIER, KILLER2_TIER,
    TT_TIER,
};
use morstilia::move_ordering::{
    moving_role, order_moves, order_moves_ctx, score_move, OrderingTables,
};
use morstilia::nnue::types::Color;
use morstilia::types::{MoveList, RawMove, Role};

const A2: usize = 8;
const A3: usize = 16;
const B2: usize = 9;
const B3: usize = 17;
const C2: usize = 10;
const C4: usize = 26;
const D2: usize = 11;
const D4: usize = 27;
const E2: usize = 12;
const E4: usize = 28;
const E5: usize = 36;
const E7: usize = 52;
const F3: usize = 21;
const G1: usize = 6;

fn mv(from: usize, to: usize) -> RawMove {
    RawMove::new(from, to, 0)
}

fn pos(fen: &str) -> Position {
    Position::from_fen(fen).unwrap()
}

fn uci(p: &Position, s: &str) -> RawMove {
    p.raw_move_from_uci(s).unwrap()
}

fn ctx(fen: &str, uci: &str) -> Option<MoveCtx> {
    let p = pos(fen);
    MoveCtx::of(&p, p.raw_move_from_uci(uci).unwrap())
}

fn params() -> EvalParams {
    EvalParams::default()
}

fn list(moves: &MoveList) -> Vec<RawMove> {
    moves.as_slice().to_vec()
}

const START: &str = "rnbqkbnr/pppppppp/8/8/8/8/PPPPPPPP/RNBQKBNR w KQkq - 0 1";

// --- history -----------------------------------------------------------------------------------

#[test]
fn history_grows_on_reward_and_clamps() {
    let mut h = History::new();
    let m = mv(E2, E4);
    for _ in 0..100 {
        h.update_history(Color::White, m, bonus(16));
    }
    let v = h.history_score(Color::White, m);
    assert!(v > 0 && v <= HIST_MAX, "got {v}");
    assert!(v < 15_000, "gravity converges, not saturates: {v}");
}

#[test]
fn penalty_is_symmetric_in_sign() {
    let mut h = History::new();
    let m_bad = mv(A2, A3);
    let m_good = mv(B2, B3);
    h.update_history(Color::Black, m_good, bonus(10));
    h.update_history(Color::Black, m_bad, -bonus(10));
    assert!(h.history_score(Color::Black, m_good) > 0);
    assert!(h.history_score(Color::Black, m_bad) < 0);
}

#[test]
fn history_is_per_side() {
    let mut h = History::new();
    let m = mv(E2, E4);
    h.update_history(Color::White, m, bonus(8));
    assert_eq!(h.history_score(Color::Black, m), 0);
}

#[test]
fn countermove_round_trip() {
    let mut h = History::new();
    let prev = ctx(START, "e2e4").unwrap();
    let resp = mv(E7, E5);
    assert_eq!(h.counter_move(Color::Black, Some(prev)), RawMove::null());
    h.set_counter_move(Color::Black, Some(prev), resp);
    assert_eq!(h.counter_move(Color::Black, Some(prev)), resp);
    let other = ctx(START, "d2d4").unwrap();
    assert_eq!(h.counter_move(Color::Black, Some(other)), RawMove::null());
    assert_eq!(h.counter_move(Color::White, Some(prev)), RawMove::null());
}

#[test]
fn continuation_context_bucketing_is_deterministic() {
    let mut h = History::new();
    let prev = ctx(
        "rnbqkbnr/pppppppp/8/8/4P3/8/PPPP1PPP/RNBQKBNR b KQkq - 0 1",
        "e7e5",
    )
    .unwrap();
    let ant = ctx(START, "e2e4").unwrap();
    let piece = Role::Knight.code() as usize;
    h.update_continuation(Color::Black, piece, G1, Some(prev), Some(ant), bonus(12));
    let v1 = h.continuation_score(Color::Black, piece, G1, Some(prev), Some(ant));
    let v2 = h.continuation_score(Color::Black, piece, G1, Some(prev), Some(ant));
    assert_eq!(v1, v2, "same context must hit the same bucket");
    assert!(v1 > 0);
    let other = ctx(
        "rnbqkbnr/pppppppp/8/8/8/3P4/PPP1PPPP/RNBQKBNR b KQkq - 0 1",
        "e7e6",
    )
    .unwrap();
    let _ = h.continuation_score(Color::Black, piece, G1, Some(other), Some(ant));
}

#[test]
fn clear_zeroes_everything() {
    let mut h = History::new();
    let m = mv(E2, E4);
    let prev = ctx(START, "d2d4").unwrap();
    h.update_history(Color::White, m, bonus(10));
    h.set_counter_move(Color::Black, Some(prev), m);
    h.clear();
    assert_eq!(h.history_score(Color::White, m), 0);
    assert_eq!(h.counter_move(Color::Black, Some(prev)), RawMove::null());
    assert_eq!(h.continuation_score(Color::White, 2, F3, None, None), 0);
}

fn cap_move(fen: &str, uci: &str) -> (Position, RawMove) {
    let p = pos(fen);
    let m = p.raw_move_from_uci(uci).unwrap();
    (p, m)
}

#[test]
fn capture_history_rewards_and_penalizes() {
    let mut h = History::new();
    let (pos, m) = cap_move("6k1/8/8/8/8/8/2q5/2R3K1 w - - 0 1", "c1c2");
    assert_eq!(h.capture_adjustment(pos.board(), m), 0);
    h.update_capture(pos.board(), m, bonus(8));
    let rewarded = h.capture_adjustment(pos.board(), m);
    assert!(rewarded > 0, "reward must lift the adjustment: {rewarded}");
    h.update_capture(pos.board(), m, -bonus(8));
    assert!(
        h.capture_adjustment(pos.board(), m) < rewarded,
        "penalty must lower the adjustment"
    );
}

#[test]
fn capture_history_is_per_side() {
    let mut h = History::new();
    let (w, wm) = cap_move("6k1/8/8/8/8/8/r7/Q3K3 w - - 0 1", "a1a2");
    let (b, bm) = cap_move("6k1/8/8/8/8/8/q7/R3K3 b - - 0 1", "a2a1");
    h.update_capture(w.board(), wm, bonus(12));
    assert!(h.capture_adjustment(w.board(), wm) > 0, "white must learn");
    assert_eq!(
        h.capture_adjustment(b.board(), bm),
        0,
        "black's table must be untouched"
    );
}

#[test]
fn capture_history_can_decide_same_victim_ties() {
    let (pos, rook) = cap_move("6k1/8/8/8/1N6/8/2q5/2R3K1 w - - 0 1", "c1c2");
    let knight = pos.raw_move_from_uci("b4c2").unwrap();
    let mut h = History::new();
    for _ in 0..1000 {
        h.update_capture(pos.board(), rook, bonus(10));
    }
    assert_eq!(
        h.capture_adjustment(pos.board(), rook),
        CAP_HIST_MAX_ADJ,
        "saturation must hit the clamp"
    );
    let rook_score =
        capture_score(pos.board(), rook, &params()) + h.capture_adjustment(pos.board(), rook);
    let knight_score = capture_score(pos.board(), knight, &params());
    assert!(
        rook_score > knight_score,
        "history must be able to decide same-victim ties: {rook_score} vs {knight_score}"
    );
}

#[test]
fn capture_history_cannot_cross_wide_victim_tiers() {
    let (pawn_pos, pm) = cap_move("6k1/8/8/8/8/4n3/3P4/6K1 w - - 0 1", "d2e3");
    let (queen_pos, qm) = cap_move("6k1/8/8/8/8/8/2q5/2R3K1 w - - 0 1", "c1c2");
    let mut h = History::new();
    for _ in 0..1000 {
        h.update_capture(pawn_pos.board(), pm, bonus(10));
        h.update_capture(queen_pos.board(), qm, -bonus(10));
    }
    let pawn_score =
        capture_score(pawn_pos.board(), pm, &params()) + h.capture_adjustment(pawn_pos.board(), pm);
    let queen_score = capture_score(queen_pos.board(), qm, &params())
        + h.capture_adjustment(queen_pos.board(), qm);
    assert_eq!(h.capture_adjustment(pawn_pos.board(), pm), CAP_HIST_MAX_ADJ);
    assert_eq!(h.capture_adjustment(queen_pos.board(), qm), -CAP_HIST_MAX_ADJ);
    assert!(
        queen_score > pawn_score,
        "pawn-victim capture can never outrank a queen-victim capture: {pawn_score} vs {queen_score}"
    );
}

#[test]
fn capture_history_en_passant_counts_as_a_pawn_victim() {
    let (pos, m) = cap_move("6k1/8/8/3pP3/8/8/8/6K1 w - d6 0 1", "e5d6");
    let mut h = History::new();
    h.update_capture(pos.board(), m, bonus(10));
    assert!(h.capture_adjustment(pos.board(), m) > 0);
}

#[test]
fn capture_history_ignores_pure_promotions() {
    let (pos, m) = cap_move("6k1/3P4/8/8/8/8/8/6K1 w - - 0 1", "d7d8q");
    let mut h = History::new();
    h.update_capture(pos.board(), m, bonus(10));
    assert_eq!(h.capture_adjustment(pos.board(), m), 0);
}

#[test]
fn rewards_have_exact_sizes() {
    assert_eq!(bonus(16), 256);
    let mut h = History::new();
    let m = mv(E2, E4);
    h.update_history(Color::White, m, 256);
    assert_eq!(h.history_score(Color::White, m), 256);
    h.update_history(Color::White, m, 256);
    assert_eq!(h.history_score(Color::White, m), 256 + 256 - 256 * 256 / 16_384);
    let mut c = h.clone();
    c.clear_counter();
    assert_eq!(c.history_score(Color::White, m), 508);
}

// --- killers -----------------------------------------------------------------------------------

#[test]
fn stores_most_recent_first() {
    let mut k = Killers::new();
    let a = mv(E2, E4);
    let b = mv(D2, D4);
    k.store(3, a);
    assert_eq!(k.get(3), (a, RawMove::null()));
    k.store(3, b);
    assert_eq!(k.get(3), (b, a));
}

#[test]
fn duplicate_store_is_a_noop() {
    let mut k = Killers::new();
    let a = mv(E2, E4);
    let b = mv(G1, F3);
    k.store(5, a);
    k.store(5, b);
    k.store(5, a);
    assert_eq!(k.get(5), (a, b));
    k.store(5, b);
    assert_eq!(k.get(5), (b, a));
}

#[test]
fn plies_are_independent() {
    let mut k = Killers::new();
    let a = mv(E2, E4);
    let b = mv(C2, C4);
    k.store(0, a);
    k.store(9, b);
    assert_eq!(k.get(0), (a, RawMove::null()));
    assert_eq!(k.get(9), (b, RawMove::null()));
}

#[test]
fn huge_ply_clamps() {
    let mut k = Killers::new();
    let a = mv(E2, E4);
    k.store(usize::MAX, a);
    assert_eq!(k.get(usize::MAX), (a, RawMove::null()));
}

#[test]
fn reset_clears() {
    let mut k = Killers::new();
    k.store(4, mv(E2, E4));
    k.reset();
    assert_eq!(k.get(4), (RawMove::null(), RawMove::null()));
}

// --- the order ---------------------------------------------------------------------------------

#[test]
fn tt_move_is_first() {
    let p = pos("r1bqkbnr/pppp1ppp/2n5/4p3/4P3/2N5/PPPP1PPP/R1BQKBNR w KQkq - 2 3");
    let mut moves = p.legal_moves();
    let tables = OrderingTables::new();
    let tt = uci(&p, "d2d4");
    order_moves(&mut moves, &p, &tables, tt);
    assert_eq!(moves.get(0), tt);
}

#[test]
fn captures_precede_killers_precede_quiets() {
    let p = pos("k7/8/8/4p3/3B4/8/8/K7 w - - 0 1");
    let mut moves = p.legal_moves();
    let mut tables = OrderingTables::new();
    let capture = uci(&p, "d4e5");
    let killer = uci(&p, "a1a2");
    tables.killers.store(2, killer);
    order_moves_ctx(&mut moves, &p, &tables, RawMove::null(), 2, None, None);
    let moves = list(&moves);
    let cap_pos = moves.iter().position(|m| *m == capture).unwrap();
    let killer_pos = moves.iter().position(|m| *m == killer).unwrap();
    assert!(cap_pos < killer_pos, "capture must precede the killer");
    for m in moves.iter().skip(killer_pos + 1) {
        assert!(
            !is_capture_or_promotion(p.board(), *m),
            "non-killer capture after killer: {m:?}"
        );
    }
}

#[test]
fn ordered_list_contains_all_legal_moves() {
    let p = Position::startpos();
    let mut moves = p.legal_moves();
    let tables = OrderingTables::new();
    order_moves(&mut moves, &p, &tables, uci(&p, "e2e4"));
    assert_eq!(moves.len(), 20);
    let mut sorted = list(&moves);
    sorted.sort_by_key(|m| m.raw());
    let mut plain = list(&p.legal_moves());
    plain.sort_by_key(|m| m.raw());
    assert_eq!(sorted, plain, "ordering must be a permutation");
}

#[test]
fn history_influences_quiet_order() {
    let p = Position::startpos();
    let mut tables = OrderingTables::new();
    let good: RawMove = uci(&p, "g1f3");
    tables.history.update_history(p.turn(), good, bonus(12));
    let mut moves = p.legal_moves();
    order_moves(&mut moves, &p, &tables, RawMove::null());
    let moves = list(&moves);
    let good_pos = moves.iter().position(|m| *m == good).unwrap();
    let bad_pos = moves.iter().position(|m| *m == uci(&p, "a2a3")).unwrap();
    assert!(good_pos < bad_pos);
}

#[test]
fn countermove_tops_quiet_ties() {
    let p = Position::startpos();
    let prev_move = uci(&p, "e2e4");
    let prev = MoveCtx::of(&p, prev_move).unwrap();
    let (after_e4, _) = p.play_uci("e2e4").unwrap();
    let cm = uci(&after_e4, "d7d5");
    let mut tables = OrderingTables::new();
    tables.history.set_counter_move(Color::Black, Some(prev), cm);
    let mut moves = after_e4.legal_moves();
    order_moves_ctx(&mut moves, &after_e4, &tables, RawMove::null(), 0, Some(prev), None);
    let moves = list(&moves);
    let cm_pos = moves
        .iter()
        .position(|m| *m == cm && !is_capture_or_promotion(after_e4.board(), *m))
        .unwrap();
    let quiet_pos = moves
        .iter()
        .position(|m| *m != cm && !is_capture_or_promotion(after_e4.board(), *m))
        .unwrap();
    assert!(cm_pos < quiet_pos);
}

#[test]
fn capture_history_cannot_outrank_wide_victim_tiers_in_score() {
    let mut tables = OrderingTables::new();
    let pawn_takes = pos("6k1/8/8/8/8/4n3/3P4/6K1 w - - 0 1");
    let pm = uci(&pawn_takes, "d2e3");
    let queen_takes = pos("6k1/8/8/8/8/8/2q5/2R3K1 w - - 0 1");
    let qm = uci(&queen_takes, "c1c2");
    for _ in 0..1000 {
        tables.history.update_capture(pawn_takes.board(), pm, 100);
        tables.history.update_capture(queen_takes.board(), qm, -100);
    }
    let sq = score_move(&pawn_takes, pm, RawMove::null(), &tables, 0, None, None);
    let sk = score_move(&queen_takes, qm, RawMove::null(), &tables, 0, None, None);
    assert!(
        sk > sq,
        "capture history must never lift a pawn-victim capture above a queen-victim one: {sq} vs {sk}"
    );
}

#[test]
fn capture_history_orders_same_victim_by_learning() {
    let mut tables = OrderingTables::new();
    let p = pos("6k1/8/8/8/1N6/8/2q5/2R3K1 w - - 0 1");
    let rook_cap = uci(&p, "c1c2");
    let knight_cap = uci(&p, "b4c2");
    for _ in 0..1000 {
        tables.history.update_capture(p.board(), rook_cap, 100);
    }
    let s_rook = score_move(&p, rook_cap, RawMove::null(), &tables, 0, None, None);
    let s_knight = score_move(&p, knight_cap, RawMove::null(), &tables, 0, None, None);
    assert!(
        s_rook > s_knight,
        "capture history must decide same-victim ties in score_move: {s_rook} vs {s_knight}"
    );
}

#[test]
fn tables_are_emptied() {
    let p = Position::startpos();
    let m = uci(&p, "e2e4");
    let mut tables = OrderingTables::new();
    tables.killers.store(0, m);
    tables.history.update_history(Color::White, m, 100);
    let mut next = tables.clone();
    next.new_position();
    assert_eq!(next.killers.get(0), (RawMove::null(), RawMove::null()));
    tables.reset();
    assert_eq!(tables.history.history_score(Color::White, m), 0);
    assert_eq!(p.legal_moves_ordered(&tables).len(), 20);
    assert_eq!(moving_role(&p, m), Some(Role::Pawn));
}

// --- exchanges ---------------------------------------------------------------------------------

fn sees(fen: &str, uci: &str) -> i32 {
    let pos = pos(fen);
    let m = pos.raw_move_from_uci(uci).unwrap();
    see(pos.board(), m, &params())
}

#[test]
fn winning_exchange_is_positive() {
    let v = sees("6k1/8/1b6/8/8/1R6/8/4K3 w - - 0 1", "b3b6");
    assert!(v > 0, "rook takes free bishop: got {v}");
}

#[test]
fn losing_exchange_is_negative() {
    let v = sees("6k1/8/5p2/4n3/3B4/8/8/4K3 w - - 0 1", "d4e5");
    assert!(v < 0, "bishop for knight defended by pawn: got {v}");
}

#[test]
fn queen_takes_pawn_is_positive() {
    let v = sees("6k1/8/8/3p4/3Q4/8/8/4K3 w - - 0 1", "d4d5");
    assert!(v > 0);
}

#[test]
fn quiet_move_returns_zero() {
    let v = sees("6k1/8/8/8/8/8/8/4K3 w - - 0 1", "e1d2");
    assert_eq!(v, 0);
}

#[test]
fn promotion_capture_counts_promoted_value() {
    let v = sees("3r2k1/4P3/8/8/8/8/8/4K3 w - - 0 1", "e7d8q");
    assert!(v > 0, "promotion to queen on the rook square: got {v}");
}

#[test]
fn exchanges_have_exact_values() {
    assert_eq!(sees("6k1/8/1b6/8/8/1R6/8/4K3 w - - 0 1", "b3b6"), 330);
    assert_eq!(sees("6k1/8/5p2/4n3/3B4/8/8/4K3 w - - 0 1", "d4e5"), -10);
    let p = pos("6k1/8/5p2/4n3/3B4/8/8/4K3 w - - 0 1");
    let m = uci(&p, "d4e5");
    assert!(see_ge(p.board(), m, -10, &params()) && !see_ge(p.board(), m, -9, &params()));
}

// --- captures ----------------------------------------------------------------------------------

fn score(fen: &str, uci: &str) -> i32 {
    let p = pos(fen);
    let m = p.raw_move_from_uci(uci).unwrap();
    capture_score(p.board(), m, &params())
}

#[test]
fn pawn_takes_queen_outranks_queen_takes_pawn() {
    let pawn_takes = score("6k1/8/8/8/8/4q3/3P4/2K5 w - - 0 1", "d2e3");
    let queen_takes = score("6k1/8/8/8/8/8/3p4/2Q3K1 w - - 0 1", "c1d2");
    assert!(pawn_takes > queen_takes, "{pawn_takes} vs {queen_takes}");
}

#[test]
fn cheapest_attacker_wins_tiebreak() {
    let rook = score("6k1/8/8/8/8/4n3/8/4R1K1 w - - 0 1", "e1e3");
    let pawn = score("6k1/8/8/8/8/4n3/3P4/6K1 w - - 0 1", "d2e3");
    assert!(pawn > rook, "{pawn} vs {rook}");
}

#[test]
fn en_passant_victim_is_a_pawn() {
    let p = pos("rnbqkbnr/ppp1p1pp/8/3pPp2/8/8/PPPP1PPP/RNBQKBNR w KQkq f6 0 3");
    let m = p.raw_move_from_uci("e5f6").unwrap();
    assert!(m.is_en_passant());
    assert_eq!(victim_value(p.board(), m, &params()), 100);
    assert!(is_capture_or_promotion(p.board(), m));
}

#[test]
fn promotion_advertises_promoted_value() {
    let promo = score("7k/4P3/8/8/8/8/8/4K3 w - - 0 1", "e7e8q");
    let promo_capture = score("3r2k1/4P3/8/8/8/8/8/4K3 w - - 0 1", "e7d8q");
    assert!(promo_capture >= promo, "capturing promo ranks at least as high");
    assert!(promo > 10_000, "queen promo dominates small captures");
}

#[test]
fn tiers_are_ordered() {
    assert!(TT_TIER > CAPTURE_TIER);
    assert!(CAPTURE_TIER > KILLER1_TIER);
    assert!(KILLER1_TIER > KILLER2_TIER);
}
