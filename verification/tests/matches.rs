//! Openings, time controls, games and matches.
use morstilia::book::SplitMix64;
use morstilia::matchplay::clock::time_limit_for;
use morstilia::matchplay::fingerprint::source_fingerprint;
use morstilia::matchplay::game::{
    std_game_record, terminal_state, Answered, Game, SearchReply, Turn,
};
use morstilia::matchplay::pgn::{match_pgn, std_game_pgn, Heading};
use morstilia::matchplay::runner::{
    assign, termination_counts, total_plies, validate_resume, Assignment, Batch, MatchError,
    Resumed, Standing,
};
use morstilia::matchplay::{
    apply_result, candidate_result, candidate_result_std, game_seed, load_syzygy, move_budget,
    outcome_of_str, sprt_decision_label, suite_by_name, CandidateSide, Clock, EngineConfig,
    EngineSummary, MatchConfig, PlayedGame, StdGame, Termination, TimeControl, WdlSer, BASELINE_TAG,
};
use morstilia::board::Position;
use morstilia::endgame::TablePath;
use morstilia::openings::{OpeningSuite, SuiteEntry, SuiteError};
use morstilia::rating::{decide, GameResult, Outcome, SprtDecision, Wdl};
use morstilia::types::RawMove;

fn entry(name: &str, plies: &[&str]) -> SuiteEntry {
    SuiteEntry {
        name: name.to_string(),
        plies: plies.iter().map(|p| p.to_string()).collect(),
    }
}

fn suite() -> OpeningSuite {
    OpeningSuite::classical_v1().unwrap()
}

fn played(white_was_a: bool, outcome: Outcome) -> PlayedGame {
    PlayedGame {
        game_no: 0,
        opening_idx: 0,
        seed: 1,
        white_was_a,
        opening_name: "x".to_string(),
        fen_after_opening: String::new(),
        moves: Vec::new(),
        outcome,
        termination: Termination::Checkmate,
    }
}

// --- openings -------------------------------------------------------------------------------

#[test]
fn classical_v1_is_legal_unique_and_balanced() {
    let suite = suite();
    assert_eq!(suite.len(), 48, "the documented suite size");
    let mut fens = std::collections::HashSet::new();
    let mut names = std::collections::HashSet::new();
    for i in 0..suite.len() {
        assert!(
            fens.insert(suite.fen_of(i).to_string()),
            "duplicate position at entry {} ({})",
            i,
            suite.entry(i).name
        );
        assert!(names.insert(suite.entry(i).name.clone()), "duplicate name");
    }
    assert_eq!(suite.white_to_move_count(), suite.len() / 2, "colors must be balanced");
}

#[test]
fn every_entry_replays_to_its_fen() {
    let suite = suite();
    for i in 0..suite.len() {
        let (pos, _, _) = suite.position_of(i);
        assert_eq!(pos.fen(), suite.fen_of(i), "entry {}", suite.entry(i).name);
    }
}

#[test]
fn from_entries_rejects_illegal_lines() {
    let bad = vec![entry("bad", &["e2e4", "e7e5", "g1f3", "d8d2"])];
    assert!(OpeningSuite::from_entries(bad).is_err());
    let dup = vec![entry("a", &["e2e4"]), entry("b", &["e2e4"])];
    assert!(OpeningSuite::from_entries(dup).is_err());
}

#[test]
fn order_is_deterministic_and_a_bijection() {
    let suite = suite();
    let a = suite.order(7);
    let b = suite.order(7);
    assert_eq!(a, b, "same seed -> same order");
    let mut sorted = a.clone();
    sorted.sort_unstable();
    assert_eq!(sorted, (0..suite.len()).collect::<Vec<_>>(), "a permutation");
    let c = suite.order(8);
    assert_ne!(a, c, "different seeds should (almost surely) differ");
    for i in 0..suite.len() {
        assert!(a[i] < suite.len());
    }
}

#[test]
fn a_shuffle_takes_one_number_for_each_place() {
    let suite = OpeningSuite::from_entries(vec![
        entry("a", &["e2e4"]),
        entry("b", &["d2d4"]),
        entry("c", &["c2c4"]),
    ])
    .unwrap();
    let mut rng = SplitMix64(5);
    let mut expected = vec![0usize, 1, 2];
    expected.swap(2, (rng.next() % 3) as usize);
    expected.swap(1, (rng.next() % 2) as usize);
    assert_eq!(suite.order(5), expected);
    assert_eq!(suite.names(), vec!["a", "b", "c"]);
}

#[test]
fn refused_suites_say_why() {
    match OpeningSuite::from_entries(vec![entry("bad", &["e2e4", "e2e4"])]) {
        Err(SuiteError::IllegalMove { name, ply }) => assert_eq!((name.as_str(), ply.as_str()), ("bad", "e2e4")),
        _ => panic!("an illegal line"),
    }
    let e = OpeningSuite::from_entries(vec![entry("a", &["e2e4"]), entry("b", &["e2e4"])]).unwrap_err();
    assert_eq!(e.message(), "opening b duplicates the position of an earlier entry");
    let e = OpeningSuite::from_positions(&[("x", "rubbish")]).unwrap_err();
    assert_eq!(e.message(), "opening x: bad FEN rubbish");
    let fen = "7k/8/6K1/8/8/6Q1/8/8 w - - 0 1";
    let e = OpeningSuite::from_positions(&[("x", fen), ("y", fen)]).unwrap_err();
    assert_eq!(e.message(), "opening y duplicates an earlier position");
    let e = suite_by_name("other").unwrap_err();
    assert_eq!(e.message(), "unknown opening suite \"other\" (available: classical-v1)");
    let e = suite_by_name("a\"b\\c\n").unwrap_err();
    assert_eq!(
        e.message(),
        "unknown opening suite \"a\\\"b\\\\c\\n\" (available: classical-v1)"
    );
    assert_eq!(suite_by_name("classical-v1").unwrap().len(), 48);
}

#[test]
fn positions_come_with_what_a_game_has_seen() {
    let fen = "7k/8/6K1/8/8/6Q1/8/8 w - - 0 1";
    let suite = OpeningSuite::from_positions(&[("kqk", fen)]).unwrap();
    assert!(!suite.is_empty());
    let (pos, history, moves) = suite.position_of(0);
    assert_eq!(pos.fen(), fen);
    assert!(history.is_empty() && moves.is_empty());
    assert_eq!(suite.white_to_move_count(), 1);

    let suite = OpeningSuite::from_entries(vec![entry("alekhine", &["e2e4", "g8f6", "b1c3"])]).unwrap();
    let (pos, history, moves) = suite.position_of(0);
    assert_eq!(moves.iter().map(|m| m.to_uci()).collect::<Vec<_>>(), vec!["e2e4", "g8f6", "b1c3"]);
    // The pawn move empties the window; the two knight moves then leave two positions.
    let (after_e4, _) = Position::startpos().play_uci("e2e4").unwrap();
    let (after_nf6, _) = after_e4.play_uci("g8f6").unwrap();
    assert_eq!(history, vec![after_e4.hash(), after_nf6.hash()]);
    assert_eq!(pos.halfmoves(), 2);
}

// --- time controls ---------------------------------------------------------------------------

#[test]
fn move_budget_follows_the_schedule() {
    let tc = TimeControl::Classic { moves: 40, base_ms: 10_000, inc_ms: 100 };
    assert_eq!(move_budget(10_000, &tc), 460);
    assert!(move_budget(100, &tc) <= 90);
    assert_eq!(move_budget(0, &TimeControl::FixedMove(50)), 50);
    assert_eq!(move_budget(u64::MAX, &TimeControl::Depth(6)), 0);
}

#[test]
fn clock_ticks_increment_and_cycle_bonus() {
    let tc = TimeControl::Classic { moves: 2, base_ms: 10_000, inc_ms: 100 };
    let mut c = Clock::new(&tc);
    assert_eq!(c.remaining_ms, 10_000);
    c.tick(100, &tc);
    assert_eq!(c.remaining_ms, 10_000);
    c.tick(70, &tc);
    assert_eq!(c.remaining_ms, 10_030 + 10_000);
    assert_eq!(c.cycle_done, 0);
    let mut c = Clock::new(&tc);
    c.tick(u128::MAX, &tc);
    assert_eq!(c.remaining_ms, 100);
}

#[test]
fn depth_is_deterministic_fixed_time_is_not() {
    assert!(TimeControl::Depth(6).is_deterministic());
    assert!(!TimeControl::FixedMove(500).is_deterministic());
    assert!(!TimeControl::Classic { moves: 40, base_ms: 10_000, inc_ms: 100 }.is_deterministic());
}

#[test]
fn limits_follow_the_control() {
    let l = time_limit_for(&TimeControl::Depth(7), 0);
    assert_eq!((l.depth, l.movetime_ms, l.soft_ms, l.hard_ms, l.infinite), (Some(7), None, 0, 0, true));
    let l = time_limit_for(&TimeControl::FixedMove(50), 50);
    assert_eq!((l.depth, l.movetime_ms, l.soft_ms, l.hard_ms), (None, Some(50), 50, 50));
    let tc = TimeControl::Classic { moves: 40, base_ms: 10_000, inc_ms: 100 };
    let l = time_limit_for(&tc, 460);
    assert_eq!((l.soft_ms, l.hard_ms), (460, 517));
    assert_eq!(time_limit_for(&tc, 80).hard_ms, 105);
    assert_eq!(time_limit_for(&tc, u64::MAX).hard_ms, u64::MAX);
}

#[test]
fn a_tenth_is_always_kept() {
    let tc = TimeControl::Classic { moves: 40, base_ms: 10_000, inc_ms: 100_000 };
    let mut c = Clock::new(&tc);
    let budget = move_budget(c.remaining_ms, &tc);
    assert_eq!(budget, 9_000);
    c.tick(budget as u128, &tc);
    assert!(c.remaining_ms >= 1_000);
    assert_eq!(move_budget(0, &tc), 1);
    assert_eq!(move_budget(0, &TimeControl::FixedMove(0)), 1);
}

// --- seeds and results -----------------------------------------------------------------------

#[test]
fn game_seeds_are_unique_per_game_and_o1() {
    let a = game_seed(1, 0);
    let b = game_seed(1, 1);
    let c = game_seed(1, 0);
    assert_ne!(a, b, "consecutive games must get different seeds");
    assert_eq!(a, c, "same (match seed, game) must derive the same seed");
    let mut rng = SplitMix64(1);
    assert_eq!(a, rng.next());
    assert_eq!(b, rng.next());
}

#[test]
fn candidate_result_is_colour_correct() {
    let a_white_win = played(true, Outcome::WhiteWin);
    assert_eq!(candidate_result(&a_white_win, CandidateSide::White), GameResult::Win);
    assert_eq!(candidate_result(&a_white_win, CandidateSide::Black), GameResult::Loss);
    let b_white_win = played(false, Outcome::WhiteWin);
    assert_eq!(candidate_result(&b_white_win, CandidateSide::White), GameResult::Loss);
    assert_eq!(candidate_result(&b_white_win, CandidateSide::Black), GameResult::Win);
}

#[test]
fn accumulated_wdl_swaps_with_alternation() {
    let mut w = Wdl::default();
    for (a_on_white, outcome) in [(true, Outcome::WhiteWin), (false, Outcome::WhiteWin)] {
        apply_result(&mut w, candidate_result(&played(a_on_white, outcome), CandidateSide::White));
    }
    assert_eq!(w.wins, 1);
    assert_eq!(w.losses, 1);
    assert_eq!(w.draws, 0);
}

#[test]
fn reports_keep_results() {
    for outcome in [Outcome::WhiteWin, Outcome::Draw, Outcome::BlackWin] {
        assert_eq!(outcome_of_str(outcome.to_pgn()), outcome);
        for white_was_a in [true, false] {
            let g = played(white_was_a, outcome);
            for side in [CandidateSide::White, CandidateSide::Black] {
                assert_eq!(candidate_result_std(&g.to_std(), side), candidate_result(&g, side));
            }
        }
        assert_eq!(
            GameResult::from_white(outcome),
            candidate_result(&played(true, outcome), CandidateSide::White)
        );
    }
    assert_eq!(outcome_of_str("*"), Outcome::Draw);
    let w = Wdl { wins: 3, draws: 2, losses: 1 };
    assert_eq!(WdlSer::of(&w).wdl(), w);
    assert_eq!(w.games(), 6);
    assert_eq!(w.to_text(), "W3 D2 L1 (6 games)");
}

#[test]
fn tests_decide_in_their_order() {
    assert_eq!(decide(true, true, 9, 5), SprtDecision::AcceptH1);
    assert_eq!(decide(false, true, 9, 5), SprtDecision::AcceptH0);
    assert_eq!(decide(false, false, 5, 5), SprtDecision::MaxGames);
    assert_eq!(decide(false, false, 4, 5), SprtDecision::Running);
    assert_eq!(sprt_decision_label(SprtDecision::AcceptH1), "AcceptH1");
    assert_eq!(sprt_decision_label(SprtDecision::MaxGames), "MaxGames");
}

// --- games -----------------------------------------------------------------------------------

fn first(white_was_a: bool) -> Assignment {
    Assignment { game_no: 0, opening_idx: 0, seed: 1, white_was_a }
}

#[test]
fn games_end_where_the_rules_say() {
    let none: Vec<u64> = Vec::new();
    let at = |fen: &str| Position::from_fen(fen).unwrap();
    assert_eq!(terminal_state(&at("7k/6Q1/6K1/8/8/8/8/8 b - - 0 1"), &none), Some(Termination::Checkmate));
    assert_eq!(terminal_state(&at("7k/5Q2/6K1/8/8/8/8/8 b - - 0 1"), &none), Some(Termination::Stalemate));
    assert_eq!(terminal_state(&at("8/8/4k3/8/8/3K4/3R4/8 w - - 100 90"), &none), Some(Termination::FiftyMove));
    assert_eq!(terminal_state(&at("8/8/4k3/8/8/3K4/8/8 w - - 0 1"), &none), Some(Termination::InsufficientMaterial));
    let start = Position::startpos();
    assert_eq!(terminal_state(&start, &none), None);
    assert_eq!(terminal_state(&start, &vec![start.hash()]), None);
    assert_eq!(terminal_state(&start, &vec![start.hash(), start.hash()]), Some(Termination::Threefold));
}

#[test]
fn a_game_is_played_move_by_move() {
    let suite = OpeningSuite::from_entries(vec![entry("open", &["e2e4"])]).unwrap();
    let tc = TimeControl::Classic { moves: 40, base_ms: 10_000, inc_ms: 100 };
    let mut g = Game::begin(&suite, &first(false), &tc, 3, true);
    match g.next() {
        // Black is to move, and the first engine has Black.
        Turn::Search { engine, limits } => {
            assert_eq!(engine, CandidateSide::White);
            assert_eq!(limits.soft_ms, 460);
        }
        _ => panic!("the game goes on"),
    }
    let e5 = g.pos.raw_move_from_uci("e7e5").unwrap();
    assert_eq!(g.answer(&SearchReply { score: 10, best: e5, time_ms: 200 }), Answered::Played);
    assert_eq!(g.clock_b.remaining_ms, 9_900);
    assert_eq!(g.clock_w.remaining_ms, 10_000);
    let illegal = RawMove::new(12, 28, 0);
    assert_eq!(g.answer(&SearchReply { score: 0, best: illegal, time_ms: 0 }), Answered::Illegal(illegal));
    let nf3 = g.pos.raw_move_from_uci("g1f3").unwrap();
    assert_eq!(g.answer(&SearchReply { score: 0, best: nf3, time_ms: 0 }), Answered::Played);
    assert_eq!(g.next(), Turn::Over { outcome: Outcome::Draw, termination: Termination::MovesLimit });
    let p = g.played(&suite, &first(false), Outcome::Draw, Termination::MovesLimit);
    assert_eq!(p.moves.len(), 3);
    let s = p.to_std();
    assert_eq!(s.moves, vec!["e2e4", "e7e5", "g1f3"]);
    assert_eq!((s.outcome.as_str(), s.termination.as_str()), ("1/2-1/2", "moves-limit"));
    assert_eq!(s.opening, "open");
}

#[test]
fn a_proved_mate_decides_a_game() {
    let suite = OpeningSuite::from_positions(&[("kqk", "7k/8/6K1/8/8/6Q1/8/8 w - - 0 1")]).unwrap();
    let tc = TimeControl::Depth(6);
    let mut g = Game::begin(&suite, &first(true), &tc, 60, true);
    let best = g.pos.raw_move_from_uci("g3g7").unwrap_or(RawMove::null());
    assert_eq!(
        g.answer(&SearchReply { score: 24_127, best, time_ms: 1 }),
        Answered::Over { outcome: Outcome::WhiteWin, termination: Termination::AdjudicatedMate }
    );
    assert_eq!(
        g.answer(&SearchReply { score: -24_126, best, time_ms: 1 }),
        Answered::Over { outcome: Outcome::BlackWin, termination: Termination::AdjudicatedMate }
    );
    assert_eq!(
        g.answer(&SearchReply { score: 0, best: RawMove::null(), time_ms: 1 }),
        Answered::Over { outcome: Outcome::Draw, termination: Termination::Aborted }
    );
}

// --- matches ---------------------------------------------------------------------------------

fn key(cfg: &MatchConfig) -> Resumed {
    Resumed {
        seed: cfg.seed,
        suite: cfg.suite_name.clone(),
        time_control: "depth 6".to_string(),
        alternate_colors: cfg.alternate_colors,
        max_plies: cfg.max_plies,
        adjudicate_mate: cfg.adjudicate_mate,
        white: EngineSummary::of(&cfg.white),
        black: EngineSummary::of(&cfg.black),
        same_test: true,
    }
}

#[test]
fn matches_run_in_batches() {
    let mut cfg = MatchConfig::default();
    cfg.games = 5;
    cfg.parallel = 3;
    let suite = suite();
    let order = suite.order(cfg.seed);
    let mut s = Standing::begin(&cfg, "depth 6", None).unwrap();
    let mut seen = Vec::new();
    loop {
        match s.next(&cfg, &order, None, false) {
            Batch::Done => break,
            Batch::Play(games) => {
                assert!(games.len() <= 3);
                for a in games {
                    assert_eq!(a, assign(&order, cfg.seed, true, a.game_no));
                    assert_eq!(a.white_was_a, a.game_no % 2 == 0);
                    assert_eq!(a.seed, game_seed(cfg.seed, a.game_no));
                    seen.push(a.game_no);
                    let mut g = played(a.white_was_a, Outcome::WhiteWin);
                    g.game_no = a.game_no;
                    s.account(&g);
                }
            }
        }
    }
    assert_eq!(seen, vec![0, 1, 2, 3, 4]);
    assert_eq!(s.completed(), 5);
    assert_eq!(s.wdl(), Wdl { wins: 3, draws: 0, losses: 2 });
    assert_eq!(s.games().len(), 5);
}

#[test]
fn a_decided_test_or_a_stop_ends_a_match() {
    let cfg = MatchConfig::default();
    let order = suite().order(1);
    let s = Standing::begin(&cfg, "depth 6", None).unwrap();
    assert!(matches!(s.next(&cfg, &order, Some(SprtDecision::AcceptH1), false), Batch::Done));
    assert!(matches!(s.next(&cfg, &order, Some(SprtDecision::Running), true), Batch::Done));
    assert!(matches!(s.next(&cfg, &order, Some(SprtDecision::Running), false), Batch::Play(_)));
}

#[test]
fn openings_rotate_before_they_repeat() {
    let order = suite().order(9);
    let mut seen: Vec<usize> = (0..48).map(|g| assign(&order, 9, true, g).opening_idx).collect();
    seen.sort_unstable();
    seen.dedup();
    assert_eq!(seen.len(), 48);
    assert_eq!(assign(&order, 9, true, 48).opening_idx, order[0]);
}

#[test]
fn a_match_is_taken_up_again() {
    let cfg = MatchConfig::default();
    let games = vec![played(true, Outcome::WhiteWin).to_std(), played(false, Outcome::Draw).to_std()];
    let s = Standing::begin(&cfg, "depth 6", Some((key(&cfg), games))).unwrap();
    assert_eq!(s.completed(), 2);
    assert_eq!(s.wdl(), Wdl { wins: 1, draws: 1, losses: 0 });
    let order = suite().order(cfg.seed);
    match s.next(&cfg, &order, None, false) {
        Batch::Play(games) => assert_eq!(games[0].game_no, 2),
        Batch::Done => panic!("eight games are left"),
    }
}

#[test]
fn batches_and_resumption_do_not_change_a_match() {
    // A game is told by its assignment alone.
    let play = |a: &Assignment| {
        let outcome = match a.seed % 3 {
            0 => Outcome::WhiteWin,
            1 => Outcome::Draw,
            _ => Outcome::BlackWin,
        };
        let mut g = played(a.white_was_a, outcome);
        g.game_no = a.game_no;
        g.opening_idx = a.opening_idx;
        g.seed = a.seed;
        g
    };
    let order = suite().order(5);
    let run = |n: usize, parallel: usize, before: Vec<StdGame>| {
        let mut cfg = MatchConfig::default();
        cfg.games = n;
        cfg.seed = 5;
        cfg.parallel = parallel;
        let mut s = Standing::begin(&cfg, "depth 6", Some((key(&cfg), before))).unwrap();
        while let Batch::Play(games) = s.next(&cfg, &order, None, false) {
            for a in &games {
                s.account(&play(a));
            }
        }
        let counts = termination_counts(s.games());
        (s.games().clone(), s.wdl(), counts)
    };
    let whole = run(7, 1, Vec::new());
    assert_eq!(whole.0.len(), 7);
    for parallel in [0, 2, 3, 7, 20] {
        assert_eq!(run(7, parallel, Vec::new()), whole, "{parallel} at once");
    }
    for k in 0..=7 {
        let part = if k == 0 { Vec::new() } else { run(k, 2, Vec::new()).0 };
        assert_eq!(part[..], whole.0[..k]);
        assert_eq!(run(7, 3, part), whole, "taken up after {k}");
    }
}

#[test]
fn another_match_is_not_taken_up() {
    let cfg = MatchConfig::default();
    assert!(validate_resume(&cfg, "depth 6", &key(&cfg)).is_ok());
    assert!(validate_resume(&cfg, "depth 7", &key(&cfg)).is_err());
    let mut k = key(&cfg);
    k.seed = 99;
    k.suite = "my \"own\"".to_string();
    k.alternate_colors = false;
    match Standing::begin(&cfg, "depth 7", Some((k, Vec::new()))) {
        Err(e) => {
            assert!(matches!(&e, MatchError::Mismatch { seed: 99, alternate_colors: false, .. }));
            assert_eq!(
                e.message(),
                format!(
                    "resume report does not match the current configuration (seed 99, suite \
                     \"my \\\"own\\\"\", tc \"depth 6\", colors false, engines {:?} vs {:?}, \
                     threads/hash/sprt differ); refusing to mix incompatible matches",
                    cfg.white.name, cfg.black.name
                )
            );
        }
        Ok(_) => panic!("another match"),
    }
    let mut k = key(&cfg);
    k.same_test = false;
    assert!(validate_resume(&cfg, "depth 6", &k).is_err());
    let mut k = key(&cfg);
    k.white.threads = 2;
    assert!(validate_resume(&cfg, "depth 6", &k).is_err());
    let mut none = MatchConfig::default();
    none.games = 0;
    match Standing::begin(&none, "depth 6", None) {
        Err(e) => assert!(e.message().starts_with("a match must play at least one game")),
        Ok(_) => panic!("no games"),
    }
}

fn told(termination: &str, moves: &[&str]) -> StdGame {
    StdGame {
        game_no: 3,
        opening_idx: 0,
        seed: 0,
        white_was_a: true,
        opening: "open".to_string(),
        fen_after_opening: String::new(),
        moves: moves.iter().map(|m| m.to_string()).collect(),
        outcome: "1-0".to_string(),
        termination: termination.to_string(),
    }
}

#[test]
fn terminations_are_counted_in_order() {
    let games = vec![
        told("stalemate", &["e2e4"]),
        told("checkmate", &["e2e4", "e7e5"]),
        told("stalemate", &[]),
        told("aborted", &["d2d4", "d7d5", "c2c4"]),
    ];
    let h = termination_counts(&games);
    assert_eq!(
        h,
        vec![
            ("aborted".to_string(), 1),
            ("checkmate".to_string(), 1),
            ("stalemate".to_string(), 2)
        ]
    );
    assert_eq!(total_plies(&games), 6);
    assert!(termination_counts(&Vec::new()).is_empty());
}

#[test]
fn defaults_of_a_match() {
    let cfg = MatchConfig::default();
    assert_eq!((cfg.games, cfg.seed, cfg.max_plies, cfg.parallel), (10, 1, 240, 1));
    assert_eq!(cfg.tc, TimeControl::Depth(6));
    assert_eq!(cfg.suite_name, "classical-v1");
    let e = EngineConfig::baseline("b");
    assert_eq!((e.name.as_str(), e.threads, e.hash_mb, e.syzygy_label.as_str()), ("b", 1, 16, "none"));
    assert!(BASELINE_TAG.contains("Baseline"));
    assert_eq!(CandidateSide::Black.label(), "black");
}

#[test]
fn tables_are_told_in_reports() {
    let (t, label) = load_syzygy(None, TablePath::Missing, 0);
    assert!(t.is_none());
    assert_eq!(label, "none");
    let (t, label) = load_syzygy(Some("  tb "), TablePath::Directory(Ok(20)), 4);
    assert_eq!(label, "20 files (max 4 pieces) from tb");
    assert_eq!(t.unwrap().loaded_files(), 20);
    let (t, label) = load_syzygy(Some("tb"), TablePath::Missing, 0);
    assert!(t.is_none());
    assert_eq!(label, "tablebase path not found: tb");
    let (_, label) = load_syzygy(Some("tb"), TablePath::Directory(Ok(0)), 0);
    assert_eq!(label, "load failed");
}

// --- records ---------------------------------------------------------------------------------

#[test]
fn records_use_san_and_result() {
    let h = Heading { event: "test", white: "A", black: "B", time_control: "depth 2" };
    let g = told("checkmate", &["e2e4", "e7e5", "d1h5", "b8c6", "f1c4", "g8f6", "h5f7"]);
    let text = std_game_pgn(&h, &g, 1).unwrap();
    let expected = "[Event \"test\"]\n[Site \"?\"]\n[Date \"????.??.??\"]\n[Round \"1\"]\n\
        [White \"A\"]\n[Black \"B\"]\n[Result \"1-0\"]\n[Opening \"open\"]\n\
        [Termination \"checkmate\"]\n[TimeControl \"depth 2\"]\n\n\
        1. e4 e5 2. Qh5 Nc6 3. Bc4 Nf6 4. Qxf7# 1-0\n";
    assert_eq!(text, expected);
    let mut other = told("checkmate", &["e2e4"]);
    other.white_was_a = false;
    assert!(std_game_pgn(&h, &other, 2).unwrap().contains("[White \"B\"]\n[Black \"A\"]\n"));
    let both = match_pgn(&h, &vec![g, other]).unwrap();
    assert!(both.starts_with(&format!("{expected}\n[Event")));
    assert!(both.contains("[Round \"2\"]"));
}

#[test]
fn long_records_are_broken_into_lines() {
    let h = Heading { event: "e", white: "A", black: "B", time_control: "t" };
    let mut moves = Vec::new();
    for _ in 0..20 {
        moves.extend(["g1f3", "g8f6", "f3g1", "f6g8"]);
    }
    let g = told("moves-limit", &moves);
    let text = std_game_pgn(&h, &g, 1).unwrap();
    let body = text.split("\n\n").nth(1).unwrap();
    assert!(body.lines().count() > 5);
    assert!(body.lines().all(|l| l.len() <= 72 && !l.ends_with(' ')));
    assert!(body.ends_with("1-0\n"));
}

#[test]
fn illegal_records_are_refused() {
    let h = Heading { event: "e", white: "A", black: "B", time_control: "t" };
    let g = told("checkmate", &["e2e4", "e2e4"]);
    assert_eq!(
        std_game_pgn(&h, &g, 1).unwrap_err().message(),
        "cannot render game 3 to SAN: illegal replay move e2e4 in game 3"
    );
    assert!(std_game_record(&g).is_none());
    let r = std_game_record(&told("checkmate", &["e2e4", "e7e5"])).unwrap();
    assert_eq!(r.moves.len(), 2);
    assert_eq!(r.outcome, Outcome::WhiteWin);
    assert_eq!(r.opening, "open");
}

// --- fingerprints ----------------------------------------------------------------------------

#[test]
fn fingerprints_follow_the_files() {
    let file = |p: &str, b: &[u8]| (p.to_string(), b.to_vec());
    assert_eq!(source_fingerprint(Vec::new()), 0xcbf2_9ce4_8422_2325);
    let mut h: u64 = 0xcbf2_9ce4_8422_2325;
    for b in b"a\0xb\0y" {
        h = (h ^ *b as u64).wrapping_mul(0x100_0000_01B3);
    }
    let a = source_fingerprint(vec![file("a", b"x"), file("b", b"y")]);
    assert_eq!(a, h);
    assert_eq!(source_fingerprint(vec![file("b", b"y"), file("a", b"x")]), a);
    assert_ne!(source_fingerprint(vec![file("a", b"y"), file("b", b"x")]), a);
}
