//! Tablebases: scores, what loading comes to, and what probes count.
use morstilia::endgame::{
    resolve_ambiguous, resolve_wdl, wdl_score, AmbiguousWdl, Syzygy, TablePath, TbOutcome, Wdl,
};
use morstilia::types::{is_mate, RawMove};

#[test]
fn score_bands_are_ordered_and_not_mates() {
    let bands = [
        (TbOutcome::Win, 19_999),
        (TbOutcome::CursedWin, 10_000),
        (TbOutcome::Draw, 0),
        (TbOutcome::BlessedLoss, -10_000),
        (TbOutcome::Loss, -19_999),
    ];
    for (outcome, expected) in bands {
        assert_eq!(outcome.score(), expected);
        assert_eq!(wdl_score(outcome), expected);
        assert!(!is_mate(expected), "a TB score is never a mate score");
    }
    assert!(wdl_score(TbOutcome::Win) > wdl_score(TbOutcome::CursedWin));
    assert!(wdl_score(TbOutcome::CursedWin) > wdl_score(TbOutcome::Draw));
    assert!(wdl_score(TbOutcome::Draw) > wdl_score(TbOutcome::BlessedLoss));
    assert!(wdl_score(TbOutcome::BlessedLoss) > wdl_score(TbOutcome::Loss));
}

#[test]
fn none_and_empty_paths_are_inert() {
    for path in ["", "   "] {
        let (tb, report) = Syzygy::load(path, TablePath::Missing, 0);
        assert!(!tb.is_loaded());
        assert_eq!(tb.max_pieces(), 0);
        assert_eq!(report.files, 0);
    }
    let mut none = Syzygy::none();
    assert!(!none.is_loaded());
    assert_eq!(none.max_pieces(), 0);
    assert_eq!(none.probe_wdl(32, None, None), None);
    assert_eq!(none.probe_dtz(32, None), None);
    assert_eq!(none.root_best_move(32, None), None);
    assert_eq!(none.probes(), 0);
}

#[test]
fn missing_path_is_graceful_and_warns() {
    let (mut tb, report) =
        Syzygy::load("/definitely/not/a/real/tablebase/path", TablePath::Missing, 0);
    assert!(!tb.is_loaded());
    assert_eq!(tb.max_pieces(), 0);
    assert_eq!(report.files, 0);
    assert!(!report.warnings.is_empty(), "missing path must warn");
    assert_eq!(
        report.warnings[0],
        "tablebase path not found: /definitely/not/a/real/tablebase/path"
    );
    assert_eq!(tb.probe_wdl(32, None, None), None);
    assert_eq!(tb.probe_dtz(32, None), None);
    assert_eq!(tb.probe_wdl(32, None, None), None, "no probes counted unless in range");
    assert_eq!(tb.probes(), 0);
}

#[test]
fn tables_in_a_directory_are_counted() {
    let (tb, report) = Syzygy::load("syzygy", TablePath::Directory(Ok(20)), 4);
    assert!(tb.is_loaded());
    assert_eq!(report.files, 20);
    assert_eq!(tb.loaded_files(), report.files);
    assert_eq!(tb.max_pieces(), 4);
    assert!(report.warnings.is_empty());
}

#[test]
fn a_single_file_counts_as_one() {
    let (tb, report) = Syzygy::load("syzygy/KQvK.rtbw", TablePath::File(Ok(())), 3);
    assert!(tb.is_loaded());
    assert_eq!(report.files, 1);
    assert_eq!(tb.max_pieces(), 3);
}

#[test]
fn unreadable_tables_warn() {
    let (tb, report) =
        Syzygy::load("dir", TablePath::Directory(Err("no access".to_string())), 0);
    assert!(!tb.is_loaded());
    assert_eq!(report.warnings, vec!["cannot read tablebase directory dir: no access"]);
    let (_, report) = Syzygy::load("f", TablePath::File(Err("bad".to_string())), 0);
    assert_eq!(report.warnings, vec!["cannot add tablebase file f: bad"]);
}

#[test]
fn more_pieces_than_covered_is_a_miss() {
    let (mut tb, _) = Syzygy::load("syzygy", TablePath::Directory(Ok(20)), 4);
    assert!(tb.in_range(4) && !tb.in_range(5));
    assert_eq!(tb.probe_wdl(5, Some(AmbiguousWdl::Win), None), None);
    assert_eq!(tb.probes(), 0);
}

#[test]
fn probes_are_counted_by_their_outcome() {
    let (mut tb, _) = Syzygy::load("syzygy", TablePath::Directory(Ok(20)), 4);
    assert_eq!(tb.probe_wdl(3, Some(AmbiguousWdl::Win), None), Some(TbOutcome::Win));
    assert_eq!(tb.probe_wdl(3, None, Some(Wdl::Loss)), Some(TbOutcome::Loss));
    assert_eq!(tb.probe_wdl(3, None, None), None);
    assert_eq!(tb.probe_wdl(3, Some(AmbiguousWdl::CursedWin), None), Some(TbOutcome::CursedWin));
    assert_eq!(tb.probe_dtz(3, Some(7)), Some(7));
    assert_eq!(tb.root_best_move(3, Some((RawMove::new(0, 8, 0), 5))), Some((RawMove::new(0, 8, 0), 5)));
    assert_eq!((tb.probes(), tb.hits()), (6, 5));
    assert_eq!((tb.wins(), tb.draws(), tb.losses(), tb.cursed()), (1, 0, 1, 1));
}

#[test]
fn doubtful_outcomes_count_as_spoilt() {
    assert_eq!(resolve_ambiguous(AmbiguousWdl::Win), TbOutcome::Win);
    assert_eq!(resolve_ambiguous(AmbiguousWdl::CursedWin), TbOutcome::CursedWin);
    assert_eq!(resolve_ambiguous(AmbiguousWdl::MaybeWin), TbOutcome::CursedWin);
    assert_eq!(resolve_ambiguous(AmbiguousWdl::MaybeLoss), TbOutcome::BlessedLoss);
    assert_eq!(resolve_ambiguous(AmbiguousWdl::Draw), TbOutcome::Draw);
    assert_eq!(resolve_ambiguous(AmbiguousWdl::Loss), TbOutcome::Loss);
    assert_eq!(resolve_wdl(Wdl::BlessedLoss), TbOutcome::BlessedLoss);
}
