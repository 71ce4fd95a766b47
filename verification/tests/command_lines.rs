//! The two command lines, and the texts of the engine's commands.
use morstilia::board::Position;
use morstilia::commands::{
    command, nps, parse_info, perft_report, transcript, Command, SearchOptions, SearchSummary,
};
use morstilia::evaluation::EvalParams;
use morstilia::matchplay::cli::{
    flag_value, name_of, parse_bool, parse_tc, read_flags, settle_tc, CliError, Flag, Key, Seconds,
    Settings, TcFault, TcText,
};
use morstilia::matchplay::{CandidateSide, TimeControl};
use morstilia::types::RawMove;

fn args(list: &[&str]) -> Vec<String> {
    list.iter().map(|s| s.to_string()).collect()
}

/// What a text of seconds is.
fn seconds(s: &str) -> Seconds {
    match s.parse::<f64>() {
        Err(_) => Seconds::Bad,
        Ok(x) => Seconds::Known {
            positive: x > 0.0,
            negative: x < 0.0,
            ms: (x * 1000.0).max(0.0) as u64,
        },
    }
}

fn tc(s: &str) -> Result<TimeControl, TcFault> {
    let t = parse_tc(s)?;
    let (a, b) = match &t {
        TcText::Depth(_) => (Seconds::Bad, Seconds::Bad),
        TcText::MoveTime(x) => (seconds(x), Seconds::Bad),
        TcText::Classic { base, inc, .. } => (seconds(base), seconds(inc)),
    };
    settle_tc(&t, a, b)
}

#[test]
fn tc_parsing() {
    assert_eq!(tc("depth 8").unwrap(), TimeControl::Depth(8));
    assert_eq!(tc("depth=5").unwrap(), TimeControl::Depth(5));
    assert_eq!(tc("depth5").unwrap(), TimeControl::Depth(5));
    assert_eq!(tc("movetime 0.5").unwrap(), TimeControl::FixedMove(500));
    assert_eq!(tc("movetime=0.25").unwrap(), TimeControl::FixedMove(250));
    assert_eq!(
        tc("40/10+0.1").unwrap(),
        TimeControl::Classic { moves: 40, base_ms: 10_000, inc_ms: 100 }
    );
    assert!(tc("garbage").is_err());
    assert!(tc("40/10").is_err(), "missing increment");
    assert!(tc("0/10+1").is_err(), "zero moves");
}

#[test]
fn faults_of_time_controls() {
    assert_eq!(tc("depth x"), Err(TcFault::BadDepth));
    assert_eq!(tc("depth 0"), Err(TcFault::DepthTooSmall));
    assert_eq!(tc("movetime x"), Err(TcFault::BadMoveTime));
    assert_eq!(tc("movetime 0"), Err(TcFault::MoveTimeNotPositive));
    assert_eq!(tc("garbage"), Err(TcFault::Unknown));
    assert_eq!(tc("40/10"), Err(TcFault::NoIncrement));
    assert_eq!(tc("x/10+1"), Err(TcFault::BadMoveCount));
    assert_eq!(tc("4/x+1"), Err(TcFault::BadBase));
    assert_eq!(tc("4/1+x"), Err(TcFault::BadIncrement));
    assert_eq!(tc("0/10+1"), Err(TcFault::BadNumbers));
    assert_eq!(tc("4/10+-1"), Err(TcFault::BadNumbers));
}

#[test]
fn bool_parsing() {
    assert!(parse_bool("x", "on").unwrap());
    assert!(parse_bool("x", "1").unwrap());
    assert!(!parse_bool("x", "off").unwrap());
    assert!(parse_bool("x", "maybe").is_err());
}

#[test]
fn flag_value_handles_both_forms() {
    let args = vec!["--games".to_string(), "4".to_string(), "--seed=9".to_string()];
    let mut i = 0;
    assert_eq!(flag_value(&args, &mut i, "--games").unwrap(), "4");
    assert_eq!(flag_value(&args, &mut i, "--seed").unwrap(), "9");
    assert_eq!(i, 3);
    assert_eq!(flag_value(&args, &mut i, "--nope"), None);
}

#[test]
fn settings_come_from_flags() {
    let (flags, e) = read_flags(&args(&[
        "--games", "4", "--seed=9", "--sprt", "--report", "out.json", "--no-alternate",
        "--white-hash=32", "--threads", "2", "--black-threads", "3", "--candidate", "black",
        "--white", "a.toml", "--adjudicate-mate", "off", "--depth", "3", "--sprt-elo0", "-1.5",
    ]));
    assert!(e.is_none());
    assert!(matches!(flags.last(), Some(Flag::Real(Key::SprtElo0, _))));
    let mut s = Settings::default();
    for f in &flags {
        s.take(f);
    }
    assert_eq!((s.games, s.seed, s.sprt, s.alternate, s.adjudicate), (4, 9, true, false, false));
    assert_eq!(s.report.as_deref(), Some("out.json"));
    let (tc, side) = s.check().unwrap();
    assert_eq!(tc, TimeControl::Depth(3));
    assert_eq!(side, CandidateSide::Black);
    let white = s.engine(CandidateSide::White, EvalParams::default(), None, "none".to_string());
    assert_eq!((white.name.as_str(), white.params_label.as_str()), ("a.toml", "a.toml"));
    assert_eq!((white.threads, white.hash_mb), (2, 32));
    let black = s.engine(CandidateSide::Black, EvalParams::default(), None, "none".to_string());
    assert_eq!((black.name.as_str(), black.params_label.as_str()), ("baseline", "baseline"));
    assert_eq!((black.threads, black.hash_mb), (3, 16));
    let cfg = s.config(tc, side, white, black);
    assert_eq!((cfg.games, cfg.max_plies, cfg.parallel), (4, 240, 1));
    assert_eq!(name_of(&Some(String::new())), "baseline");
}

#[test]
fn flags_that_make_no_sense_are_refused() {
    let refused = |list: &[&str]| read_flags(&args(list)).1.unwrap().message();
    assert_eq!(refused(&["--games", "x"]), "--games must be an integer");
    assert_eq!(refused(&["--depth", "x"]), "--depth must be an integer");
    assert_eq!(refused(&["--seed", "-1"]), "--seed must be an integer");
    assert_eq!(refused(&["--games"]), "unexpected argument: --games (use --help)");
    assert_eq!(refused(&["--what", "x"]), "unknown argument: --what");
    assert_eq!(refused(&["--compare", "a"]), "--compare needs two report paths");
    assert_eq!(refused(&["--alternate", "maybe"]), "--alternate must be on|off, got \"maybe\"");
    assert_eq!(
        refused(&["--tc", "40/10"]),
        "bad time control \"40/10\" (missing increment, use M/B+I)"
    );
    assert_eq!(refused(&["--tc", "depth=x"]), "bad depth control \"depth=x\"");
    assert_eq!(refused(&["--tc", "depth=\"\t"]), "bad depth control \"depth=\\\"\\t\"");
    let e = CliError::Control { fault: TcFault::BadMoveTime, got: "movetime=\\".to_string() };
    assert_eq!(e.message(), "bad movetime control \"movetime=\\\\\"");
    assert_eq!(refused(&["--alternate", " a\"b "]), "--alternate must be on|off, got \"a\\\"b\"");
    assert_eq!(refused(&["--tc", "depth=0"]), "depth must be >= 1");
    assert_eq!(CliError::NotANumber("--sprt-alpha".to_string()).message(), "--sprt-alpha must be a number");
    let (flags, e) = read_flags(&args(&["--games", "2", "-h", "--games", "x"]));
    assert!(e.is_none());
    assert!(matches!(flags.as_slice(), [Flag::Count(Key::Games, 2), Flag::Help]));
    let (flags, _) = read_flags(&args(&["--compare", "a", "b"]));
    let mut s = Settings::default();
    s.take(&flags[0]);
    assert_eq!(s.compare, Some(("a".to_string(), "b".to_string())));
}

#[test]
fn settings_that_make_no_sense_are_refused() {
    let refused = |f: &dyn Fn(&mut Settings)| {
        let mut s = Settings::default();
        f(&mut s);
        s.check().unwrap_err().message()
    };
    assert_eq!(refused(&|s| s.games = 0), "--games must be >= 1");
    assert_eq!(refused(&|s| s.parallel = 0), "--parallel must be >= 1");
    assert_eq!(refused(&|s| s.candidate = "x".to_string()), "--candidate must be 'white' or 'black'");
    assert_eq!(refused(&|s| s.depth = Some(0)), "--depth must be >= 1");
    assert_eq!(refused(&|s| s.max_plies = 0), "--max-plies must be >= 1");
    let (tc, side) = Settings::default().check().unwrap();
    assert_eq!((tc, side), (TimeControl::Depth(6), CandidateSide::White));
}

// --- the engine's commands -------------------------------------------------------------------

#[test]
fn commands_are_told_apart() {
    let read = |list: &[&str]| command(&args(list));
    assert!(matches!(read(&[]), Ok(Command::Uci)));
    assert!(matches!(read(&["--mode", "uci"]), Ok(Command::Uci)));
    assert!(matches!(read(&["uci"]), Ok(Command::Uci)));
    assert!(matches!(read(&["-v"]), Ok(Command::Version)));
    assert!(matches!(read(&["--mode", "uci", "--help"]), Ok(Command::Help)));
    match read(&["--perft", "5", "--fen", "x"]) {
        Ok(Command::Perft { depth, fen }) => assert_eq!((depth, fen.as_deref()), (5, Some("x"))),
        _ => panic!("perft"),
    }
    match read(&["--perft", "--depth=3"]) {
        Ok(Command::Perft { depth, fen }) => assert_eq!((depth, fen), (3, None)),
        _ => panic!("perft"),
    }
    match read(&["--fen", "x", "--depth=4", "--hash", "8"]) {
        Ok(Command::Search { position, options }) => {
            assert_eq!(position, "x");
            assert_eq!(options, SearchOptions { depth: 4, threads: 1, hash: 8, stats: false });
        }
        _ => panic!("search"),
    }
    match read(&["--bench", "--stats", "--threads", "2"]) {
        Ok(Command::Bench(options)) => {
            assert_eq!(options, SearchOptions { depth: 10, threads: 2, hash: 64, stats: true })
        }
        _ => panic!("bench"),
    }
}

#[test]
fn bad_commands_are_refused() {
    let refused = |list: &[&str]| command(&args(list)).unwrap_err().message();
    assert_eq!(refused(&["--mode", "x"]), "only --mode uci is supported");
    assert_eq!(refused(&["--what"]), "unknown argument: --what");
    assert_eq!(refused(&["--perft"]), "--perft needs a depth (e.g. `--perft 5`)");
    assert_eq!(refused(&["--perft", "--depth", "x"]), "invalid perft depth");
    assert_eq!(refused(&["--perft", "3", "more"]), "unexpected argument: more");
    assert_eq!(refused(&["--fen"]), "--fen needs a FEN string, e.g. --fen \"r6k/... \"");
    assert_eq!(refused(&["--fen", "x", "--depth", "y"]), "--depth must be an integer");
    assert_eq!(refused(&["--fen", "x", "--threads=y"]), "--threads must be an integer");
    assert_eq!(refused(&["--fen", "x", "--hash", "y"]), "--hash must be an integer (MB)");
    assert_eq!(refused(&["--bench", "--hash=y"]), "--hash must be an integer (MB)");
    assert_eq!(refused(&["--fen", "x", "--stats"]), "unexpected argument: --stats");
    assert_eq!(refused(&["--bench", "--foo", "1"]), "unexpected argument: --foo");
    assert_eq!(refused(&["--bench", "--foo=1"]), "unexpected argument: --foo=1");
}

#[test]
fn counts_are_printed_line_by_line() {
    let pos = Position::startpos();
    assert_eq!(perft_report(&pos, 0).unwrap(), "1\n");
    let text = perft_report(&pos, 2).unwrap();
    assert_eq!(text.lines().count(), 21);
    assert!(text.contains("e2e4: 20\n"));
    assert!(text.ends_with("total: 400\n"));
}

#[test]
fn transcripts_read_back() {
    let m = RawMove::new(12, 28, 0);
    let found = Some(SearchSummary {
        depth: 5,
        score: -31,
        mate: None,
        nodes: 12_345,
        nps: 1_000,
        time_ms: 77,
        pv: vec![m, RawMove::new(52, 36, 0)],
        best: m,
    });
    let text = transcript(&found);
    assert_eq!(
        text,
        "info depth 5 score cp -31 nodes 12345 nps 1000 time 77 pv e2e4 e7e5\nbestmove e2e4\n"
    );
    assert_eq!(parse_info(&text), (12_345, 77, "e2e4".to_string()));
    assert_eq!(transcript(&None), "bestmove 0000\n");
    assert_eq!(parse_info("bestmove 0000\n"), (0, 0, "0000".to_string()));
    assert_eq!(parse_info(""), (0, 0, "0000".to_string()));
    assert_eq!(parse_info("info nodes 1 nodes x time\r\nbestmove a1a2\r\n").0, 1);
    let mate = transcript(&Some(SearchSummary {
        depth: 3,
        score: 24_127,
        mate: Some(1),
        nodes: 1,
        nps: 0,
        time_ms: 0,
        pv: Vec::new(),
        best: m,
    }));
    assert!(mate.starts_with("info depth 3 score mate 1 nodes 1 "));
}

#[test]
fn speed_is_nodes_in_a_second() {
    assert_eq!(nps(500, 250), 2_000);
    assert_eq!(nps(500, 0), 0);
    assert_eq!(nps(u64::MAX, 1), u64::MAX as u128 * 1000);
}
