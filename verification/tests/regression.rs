//! Guards against a change for the worse.
use morstilia::board::Position;
use morstilia::evaluation::EvalParams;
use morstilia::regression::{
    bench_positions, comparable, examine, games_note, summarize, tactic_cases, unlike_note, verdict,
    Found, Matchup, Verdict,
};

fn found(best: &str, nodes: u64) -> Found {
    Found { best: best.to_string(), nodes }
}

fn matchup(seed: u64) -> Matchup {
    Matchup {
        suite: "classical-v1".to_string(),
        seed,
        time_control: "depth 6".to_string(),
        alternate_colors: true,
        candidate: "white".to_string(),
    }
}

#[test]
fn the_baseline_has_no_deltas_to_itself() {
    let p = EvalParams::default();
    let mut cases = Vec::new();
    for case in tactic_cases().iter() {
        let best = found(case.expect_best, 10);
        cases.push(examine(case, &p, &p, &best, &found(case.expect_best, 10)).unwrap());
    }
    let s = summarize(&cases);
    assert!(s.all_tactics_ok && s.all_deterministic);
    assert_eq!((s.max_eval_delta, s.sum_eval_delta), (0, 0));
}

#[test]
fn changed_parameters_show_deltas() {
    let p = EvalParams::default();
    let mut noisy = p;
    noisy.piece_values[3] += 40;
    let cases = tactic_cases();
    let a = examine(&cases[0], &p, &noisy, &found("d2d8", 10), &found("d2d8", 11)).unwrap();
    assert!(a.tactic_ok && !a.deterministic);
    assert_eq!(a.nodes, (10, 11));
    let b = examine(&cases[1], &p, &noisy, &found("h1g1", 5), &found("h1g1", 5)).unwrap();
    assert!(!b.tactic_ok && b.deterministic);
    let s = summarize(&vec![a, b]);
    assert!(!s.all_tactics_ok && !s.all_deterministic);
    assert!(s.max_eval_delta > 0);
    assert_eq!(s.max_eval_delta as i128, s.sum_eval_delta);
    assert_eq!(summarize(&Vec::new()).max_eval_delta, 0);
}

#[test]
fn verdicts_follow_the_interval() {
    assert_eq!(verdict(true, 10, 10, true, false), Verdict::Improved);
    assert_eq!(verdict(true, 10, 10, false, true), Verdict::Regressed);
    assert_eq!(verdict(true, 10, 10, false, false), Verdict::Similar);
    assert_eq!(verdict(true, 0, 10, true, false), Verdict::Insufficient);
    assert_eq!(verdict(false, 10, 10, true, false), Verdict::Incomparable);
    assert_eq!(Verdict::Regressed.label(), "regressed");
    assert_eq!(games_note(0, 10), "A has 0 games, B has 10 games");
}

#[test]
fn unlike_matches_are_not_compared() {
    assert!(comparable(&matchup(7), &matchup(7)));
    assert!(!comparable(&matchup(7), &matchup(8)));
    let note = unlike_note(&matchup(7), &matchup(8));
    assert!(note.contains("seed 7 vs 8"), "{note}");
    let mut other = matchup(7);
    other.candidate = "black".to_string();
    assert!(!comparable(&matchup(7), &other));
    other.suite = "a\"b\nc".to_string();
    assert_eq!(
        unlike_note(&matchup(7), &other),
        "runs are not the same matchup: suite \"classical-v1\" vs \"a\\\"b\\nc\", seed 7 vs 7, \
         tc \"depth 6\" vs \"depth 6\", alternate true vs true, candidate \"white\" vs \"black\""
    );
}

#[test]
fn the_positions_are_positions() {
    for (name, fen) in bench_positions() {
        assert!(Position::from_fen(fen).is_ok(), "{name}");
    }
}
