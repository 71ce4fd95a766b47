//! The terms of the evaluation and their sum.
use morstilia::bits;
use morstilia::board::placement::Placement;
use morstilia::board::Position;
use morstilia::evaluation::activity::evaluate_pieces;
use morstilia::evaluation::king::evaluate_king_safety;
use morstilia::evaluation::material::evaluate_material;
use morstilia::evaluation::mobility::evaluate_mobility;
use morstilia::evaluation::passed_pawns::{evaluate_passed, is_passed, PassedInfo};
use morstilia::evaluation::pawns::{evaluate_pawns, islands, PawnInfo};
use morstilia::evaluation::phase::{blend, game_phase, PHASE_MAX};
use morstilia::evaluation::pieces::evaluate_pst;
use morstilia::evaluation::tables;
use morstilia::evaluation::threats::{evaluate_rooks, evaluate_space, evaluate_threats};
use morstilia::evaluation::{tapered, EvalParams, Evaluator, Score, PIECE_VALUES};
use morstilia::nnue::types::Color;
use morstilia::types::Role;

fn params() -> EvalParams {
    EvalParams::default()
}

fn board(fen: &str) -> Placement {
    *Position::from_fen(fen).unwrap().board()
}

fn parts(fen: &str) -> (Placement, PawnInfo, PassedInfo) {
    let board = board(fen);
    let info = PawnInfo::scan(&board);
    let passed = PassedInfo::scan(&info);
    (board, info, passed)
}

fn score(fen: &str) -> Score {
    let (b, i, p) = parts(fen);
    evaluate_pieces(&b, &i, &p, 24, &params())
}

// --- the activity of pieces -------------------------------------------------------------------

#[test]
fn supported_central_outpost_is_bonused() {
    let good = score("r1bqkbnr/pppp1ppp/8/4N3/1P6/8/P1PPPPPP/R1BQKB1R w KQkq - 0 1");
    let plain = score("r1bqkbnr/pppp1ppp/8/8/8/8/PPPPPPPP/RNBQKBNR w KQkq - 0 1");
    assert!(good.mg > plain.mg, "{good:?} vs {plain:?}");
}

#[test]
fn pawn_attacked_square_is_no_outpost() {
    let s_safe = score("6k1/8/8/4N3/3P4/8/8/4K3 w - - 0 1");
    let s_hound = score("6k1/8/3p4/4N3/3P4/8/8/4K3 w - - 0 1");
    assert!(s_safe.mg > s_hound.mg, "{s_safe:?} vs {s_hound:?}");
}

#[test]
fn own_pawn_support_is_required_for_outpost() {
    let s_sup = score("6k1/8/8/4N3/3P4/8/8/4K3 w - - 0 1");
    let s_unsup = score("6k1/8/8/4N3/8/8/8/4K3 w - - 0 1");
    assert!(s_sup.mg > s_unsup.mg, "{s_sup:?} vs {s_unsup:?}");
}

#[test]
fn outposts_are_the_same_for_both_sides() {
    let white = score("6k1/8/8/4N3/3P4/8/8/4K3 w - - 0 1");
    assert_eq!((white.mg, white.eg), (30, 20));
    let black = score("4k3/8/8/3p4/4n3/8/8/6K1 w - - 0 1");
    assert_eq!((black.mg, black.eg), (-30, -20));
    let sixth = score("4k3/8/8/8/3p4/4n3/8/6K1 w - - 0 1");
    assert_eq!((sixth.mg, sixth.eg), (-30, -20));
    let seventh = score("4k3/8/8/8/8/3p4/4n3/6K1 w - - 0 1");
    assert_eq!((seventh.mg, seventh.eg), (0, 0));
}

#[test]
fn bad_bishop_is_penalized() {
    let s_bad = score("6k1/8/8/8/8/8/P1P1P1P1/4K1B1 w - - 0 1");
    let s_good = score("6k1/8/8/8/8/8/1P1P1P1P/4K1B1 w - - 0 1");
    assert!(
        s_bad.mg < s_good.mg,
        "light-square pawns hurt the f1 bishop: {s_bad:?} vs {s_good:?}"
    );
    assert_eq!(s_bad.mg - s_good.mg, params().bad_bishop_pawn[0] * 3);
}

#[test]
fn development_penalizes_home_minors_in_the_opening() {
    let s_lazy = score("rnbqkbnr/pppppppp/8/8/8/8/PPPPPPPP/RNBQKBNR w KQkq - 0 1");
    let s_dev = score("rnbqkbnr/pppppppp/8/8/8/2N5/PPPPPPPP/R1BQKBNR w KQkq - 0 1");
    assert!(
        s_dev.mg > s_lazy.mg,
        "developing the knight must improve the piece term: {} vs {}",
        s_dev.mg,
        s_lazy.mg
    );
    let eg = parts("6k1/8/8/8/8/8/8/4KN2 w - - 0 1");
    let s_eg = evaluate_pieces(&eg.0, &eg.1, &eg.2, 0, &params());
    assert_eq!(s_eg.mg, 0, "development is an opening term only");
}

#[test]
fn rooks_connected_on_open_rank() {
    let s_con = score("6k1/8/8/8/8/8/8/RR2K3 w - - 0 1");
    let s_sep = score("6k1/8/8/8/8/8/8/R3K2R w - - 0 1");
    assert!(s_con.mg > s_sep.mg, "{s_con:?} vs {s_sep:?}");
    assert_eq!(
        s_con.mg - s_sep.mg,
        params().rooks_connected[0],
        "exactly the connected-rook bonus"
    );
}

#[test]
fn rook_behind_passed_pawn_is_bonused() {
    let s_behind = score("6k1/8/8/3P4/8/8/8/3R2K1 w - - 0 1");
    let s_idle = score("6k1/8/8/3P4/8/8/8/R3K3 w - - 0 1");
    assert!(s_behind.mg > s_idle.mg, "{s_behind:?} vs {s_idle:?}");
    assert_eq!(
        s_behind.mg - s_idle.mg,
        params().rook_behind_passed[0],
        "exactly the behind-passer bonus"
    );
    let s_chase = score("6k1/3R4/8/3p4/8/8/8/4K3 w - - 0 1");
    assert!(
        s_chase.mg > s_idle.mg,
        "a rook behind the enemy passer is also worth a bonus"
    );
}

#[test]
fn bare_queen_endgame_has_no_piece_features() {
    let s = score("7k/5Q2/8/8/8/8/8/4K3 w - - 0 1");
    assert_eq!(s.mg, 0);
    assert_eq!(s.eg, 0);
}

#[test]
fn queen_behind_passed_pawn_is_bonused() {
    let s_behind = score("6k1/8/8/3P4/8/8/8/3Q2K1 w - - 0 1");
    let s_idle = score("6k1/8/8/3P4/8/8/8/Q3K3 w - - 0 1");
    assert!(s_behind.mg > s_idle.mg, "{s_behind:?} vs {s_idle:?}");
    assert_eq!(
        s_behind.mg - s_idle.mg,
        params().queen_behind_passed[0],
        "exactly the behind-passer bonus"
    );
}

#[test]
fn queen_under_enemy_pawn_attack_is_penalized() {
    let s_safe = score("6k1/8/8/4Q3/8/8/8/4K3 w - - 0 1");
    let s_hound = score("6k1/8/3p4/4Q3/8/8/8/4K3 w - - 0 1");
    assert!(s_safe.mg > s_hound.mg, "{s_safe:?} vs {s_hound:?}");
    assert_eq!(
        s_safe.mg - s_hound.mg,
        -params().queen_under_pawn_attack[0],
        "exactly the queen-under-pawn penalty"
    );
}

#[test]
fn developed_minor_pair_is_bonused() {
    let s_dev = score("r1bqkbnr/pppp1ppp/2n5/4p3/4P3/2B2N2/PPPP1PPP/R2Q1RK1 w kq - 0 1");
    let s_home = score("rnbqkbnr/pppppppp/8/8/8/8/PPPPPPPP/RNBQKBNR w KQkq - 0 1");
    assert!(s_dev.mg > s_home.mg, "{s_dev:?} vs {s_home:?}");
}

// --- kings -------------------------------------------------------------------------------------

fn king(fen: &str) -> Score {
    let b = board(fen);
    evaluate_king_safety(&b, &PawnInfo::scan(&b), &params())
}

#[test]
fn shielded_king_scores_higher() {
    let s1 = king("6k1/8/8/8/8/8/5PPP/6K1 w - - 0 1");
    let s2 = king("6k1/8/8/8/8/8/8/6K1 w - - 0 1");
    assert!(s1.mg > s2.mg, "shielded should be safer than unshielded");
}

#[test]
fn surrounded_king_is_penalized() {
    let s = king("6k1/8/8/3nn3/3nr3/8/8/4K3 w - - 0 1");
    assert!(s.mg < 0, "white king under heavy attack: {s:?}");
}

#[test]
fn endgame_king_centralization_is_rewarded() {
    let s_corner = king("7k/8/8/8/8/8/8/K7 w - - 0 1");
    let s_central = king("7k/8/8/8/8/8/8/4K3 w - - 0 1");
    assert!(
        s_central.eg > s_corner.eg,
        "centralized king must get an endgame bonus: {s_central:?} vs {s_corner:?}"
    );
}

#[test]
fn endgame_king_races_toward_passer() {
    let s_far = king("7k/8/8/8/4p3/8/8/K7 w - - 0 1");
    let s_near = king("7k/8/8/8/4p3/8/8/4K3 w - - 0 1");
    assert!(
        s_near.eg > s_far.eg,
        "king near the enemy passer must score higher: {s_near:?} vs {s_far:?}"
    );
}

// --- material ----------------------------------------------------------------------------------

fn material(fen: &str) -> Score {
    evaluate_material(&board(fen), &params())
}

#[test]
fn startpos_material_is_zero() {
    assert_eq!(
        evaluate_material(Position::startpos().board(), &params()),
        Score::zero()
    );
}

#[test]
fn extra_knight_is_320() {
    let s = material("6k1/8/8/8/8/8/8/4K1N1 w - - 0 1");
    assert_eq!(s.mg, 320);
    assert_eq!(s.eg, 320);
}

#[test]
fn bishop_pair_awarded() {
    let both = material("6k1/8/8/8/8/8/8/2B1KB2 w - - 0 1");
    let single = material("6k1/8/8/8/8/8/8/2B1K3 w - - 0 1");
    assert_eq!(both.mg - single.mg, 330 + 40);
}

// --- mobility ----------------------------------------------------------------------------------

fn mobility(fen: &str) -> Score {
    let b = board(fen);
    evaluate_mobility(&b, &PawnInfo::scan(&b), &params())
}

#[test]
fn central_knight_is_more_mobile() {
    let s_corner = mobility("6k1/8/8/8/8/8/8/N3K3 w - - 0 1");
    let s_center = mobility("6k1/8/8/8/3N4/8/8/4K3 w - - 0 1");
    assert!(s_center.mg > s_corner.mg);
}

#[test]
fn blocked_knight_loses_mobility() {
    let s_open = mobility("6k1/8/8/8/8/8/8/4K1N1 w - - 0 1");
    let s_blocked = mobility("6k1/8/8/8/8/8/PPPPPPPP/4K1N1 w - - 0 1");
    assert!(s_open.mg > s_blocked.mg);
}

#[test]
fn endgame_king_mobility_is_rewarded() {
    let s_corner = mobility("7k/8/8/8/8/8/8/K7 w - - 0 1");
    let s_central = mobility("7k/8/8/8/8/8/8/4K3 w - - 0 1");
    assert!(
        s_central.eg > s_corner.eg,
        "centralized king must have more endgame mobility: {s_central:?} vs {s_corner:?}"
    );
}

// --- the whole ---------------------------------------------------------------------------------

fn value(fen: &str) -> i32 {
    Evaluator.evaluate(&Position::from_fen(fen).unwrap())
}

#[test]
fn startpos_eval_is_symmetric_and_small() {
    let v = Evaluator.evaluate(&Position::startpos());
    assert_eq!(v, 0, "startpos must be exactly equal");
}

#[test]
fn startpos_components_are_balanced_to_zero() {
    let parts = Evaluator.evaluate_parts(&Position::startpos());
    for (name, s) in [
        ("material", parts.material),
        ("pst", parts.pst),
        ("pawn", parts.pawn),
        ("mobility", parts.mobility),
        ("king", parts.king),
        ("pieces", parts.pieces),
        ("passed", parts.passed),
        ("space", parts.space),
        ("threats", parts.threats),
    ] {
        assert_eq!(s.mg, s.eg, "{name} component is balanced mg==eg at startpos: {s:?}");
        assert_eq!(s.mg, 0, "{name} must vanish at startpos: {s:?}");
    }
    assert_eq!(parts.phase, 24);
    assert_eq!(parts.final_score, 0);
}

#[test]
fn swapped_colors_eval_negates() {
    let v1 = value("r1bqkbnr/pppp1ppp/2n5/4p3/4P3/2N5/PPPP1PPP/R1BQKBNR w KQkq - 4 4");
    let v2 = value("r1bqkbnr/pppp1ppp/2n5/4p3/4P3/2N5/PPPP1PPP/R1BQKBNR b KQkq - 4 4");
    assert_eq!(v1, -v2, "color mirror must negate eval");
}

#[test]
fn vertical_color_mirror_is_consistent() {
    let v_w = value("r1bq1rk1/pp2bppp/2n1pn2/2pp4/3P1B2/2NBPN2/PPP2PPP/R2Q1RK1 w - - 0 1");
    let v_m = value("r2q1rk1/ppp2ppp/2nbpn2/3p1b2/2PP4/2N1PN2/PP2BPPP/R1BQ1RK1 w - - 0 1");
    assert_eq!(v_w, -v_m, "vertical colour mirror must negate: {v_w} vs {v_m}");
}

#[test]
fn eval_parts_are_consistent_with_evaluate() {
    for fen in [
        "rnbqkbnr/pppppppp/8/8/8/8/PPPPPPPP/RNBQKBNR w KQkq - 0 1",
        "r1bqkbnr/pppp1ppp/2n5/4p3/4P3/2N5/PPPP1PPP/R1BQKBNR w KQkq - 4 4",
        "6k1/8/8/8/3P4/8/8/4K3 w - - 0 1",
        "6k1/5Q2/8/8/8/8/8/4K3 b - - 0 1",
        "r2q1rk1/ppp2ppp/2nbpn2/3p1b2/2PP4/2N1PN2/PP2BPPP/R1BQ1RK1 w - - 0 1",
    ] {
        let pos = Position::from_fen(fen).expect("valid test FEN");
        let parts = Evaluator.evaluate_parts(&pos);
        assert_eq!(
            parts.final_score,
            Evaluator.evaluate(&pos),
            "parts.final must equal evaluate for {fen}"
        );
        let mut sum = 0i32;
        for s in [
            parts.material,
            parts.pst,
            parts.pawn,
            parts.mobility,
            parts.king,
            parts.pieces,
            parts.passed,
            parts.space,
            parts.threats,
        ] {
            sum += parts.blended(s);
        }
        let stm_adjusted = if pos.turn() == Color::Black { -sum } else { sum };
        assert!(
            (stm_adjusted - parts.final_score).abs() <= 9,
            "component blend must reproduce final (within truncation) for {fen}: {stm_adjusted} vs {}",
            parts.final_score
        );
        let total = parts.total();
        assert_eq!((total.mg, total.eg), (parts.total_mg, parts.total_eg));
    }
}

#[test]
fn material_dominates() {
    let v = value("7k/8/8/8/8/8/r7/RR1RK3 w - - 0 1");
    assert!(v > 800, "white up material must be strongly positive, got {v}");
}

#[test]
fn up_a_queen_is_positive() {
    assert!(value("6k1/8/8/8/8/8/5Q2/6K1 w - - 0 1") > 700);
    assert!(value("6k1/8/8/8/8/8/5q2/6K1 w - - 0 1") < -700);
}

#[test]
fn tapered_blend_interpolates_linearly() {
    let s = Score::new(24, 0);
    assert_eq!(tapered(s, 24), 24);
    assert_eq!(tapered(s, 12), 12);
    assert_eq!(tapered(s, 0), 0);
    let s2 = Score::new(0, 48);
    assert_eq!(tapered(s2, 12), 24);
    assert_eq!(tapered(s2, 0), 48);
    assert_eq!(tapered(Score::new(24, 48), 6), 42);
}

#[test]
fn passed_pawn_on_seventh_rank_is_winning() {
    let v = value("6k1/3P4/8/8/8/8/8/4K3 w - - 0 1");
    assert!(v > 400, "seventh-rank passer must be winning: {v}");
}

#[test]
fn centralized_king_beats_cornered_king_in_endgame() {
    let v_corner = value("7k/8/8/8/8/8/8/KR6 w - - 0 1");
    let v_central = value("7k/8/8/3R4/3K4/8/8/8 w - - 0 1");
    assert!(
        v_central > v_corner,
        "centralized pieces must beat the corner: {v_central} vs {v_corner}"
    );
}

#[test]
fn stats_row_carries_every_component() {
    let parts = Evaluator.evaluate_parts(
        &Position::from_fen("r2q1rk1/ppp2ppp/2nbpn2/3p1b2/2PP4/2N1PN2/PP2BPPP/R1BQ1RK1 w - - 0 1")
            .unwrap(),
    );
    let row = parts.stats_row();
    for token in [
        "material", "pst", "pawn", "mobility", "king", "pieces", "passed", "space", "threats",
        "phase", "final",
    ] {
        assert!(row.contains(token), "stats_row missing {token}: {row}");
    }
}

#[test]
fn params_baseline_reproduces_legacy_eval() {
    let p = params();
    let mut listed = params();
    listed.from_vec(&p.to_vec());
    for fen in [
        "rnbqkbnr/pppppppp/8/8/8/8/PPPPPPPP/RNBQKBNR w KQkq - 0 1",
        "r1bqkbnr/pppp1ppp/2n5/4p3/4P3/2N5/PPPP1PPP/R1BQKBNR w KQkq - 4 4",
        "r2q1rk1/ppp2ppp/2nbpn2/3p1b2/2PP4/2N1PN2/PP2BPPP/R1BQ1RK1 w - - 0 1",
        "6k1/8/8/8/3P4/8/8/4K3 w - - 0 1",
        "7k/1R6/8/8/8/8/8/4K3 w - - 0 1",
    ] {
        let pos = Position::from_fen(fen).unwrap();
        let v = Evaluator.evaluate(&pos);
        assert_eq!(Evaluator.evaluate_with(&pos, &p), v, "{fen}");
        assert_eq!(Evaluator.evaluate_with(&pos, &listed), v, "{fen}");
        let white = Evaluator.evaluate_white_with(&pos, &p);
        assert_eq!(white, v, "White is to move in {fen}");
    }
}

#[test]
fn mirrored_boards_have_the_opposite_value() {
    // Each pair is a board and the same board with colours and ranks exchanged.
    for (a, b) in [
        (
            "r1bqkbnr/pppp1ppp/2n5/4p3/4P3/5N2/PPPP1PPP/RNBQKB1R w KQkq - 0 1",
            "rnbqkb1r/pppp1ppp/5n2/4p3/4P3/2N5/PPPP1PPP/R1BQKBNR b KQkq - 0 1",
        ),
        ("6k1/3P4/8/8/8/8/8/4K3 w - - 0 1", "4k3/8/8/8/8/8/3p4/6K1 b - - 0 1"),
        ("7k/8/8/8/8/8/r7/RR1RK3 w - - 0 1", "rr1rk3/R7/8/8/8/8/8/7K b - - 0 1"),
        ("6k1/8/8/4N3/3P4/8/8/4K3 w - - 0 1", "4k3/8/8/3p4/4n3/8/8/6K1 b - - 0 1"),
    ] {
        assert_eq!(value(a), value(b), "{a}");
    }
}

// --- parameters --------------------------------------------------------------------------------

#[test]
fn param_vector_round_trips() {
    let p = params();
    let v = p.to_vec();
    let mut q = params();
    q.from_vec(&v);
    assert_eq!(p.to_vec(), q.to_vec(), "round-trip must be lossless");
}

#[test]
fn param_vector_and_bounds_agree_in_length() {
    let v = params().to_vec();
    let b = EvalParams::bounds();
    assert_eq!(v.len(), b.len(), "vector and bounds must share ordering");
    assert_eq!(v.len(), 864);
    let base = params().to_vec();
    for (i, def) in b.iter().enumerate() {
        assert!(def.min <= def.max, "invalid bounds for {}", def.name);
        assert!(
            base[i] >= def.min && base[i] <= def.max,
            "baseline {} outside [{}, {}]",
            def.name,
            def.min,
            def.max
        );
    }
}

#[test]
fn from_vec_applies_values() {
    let mut p = params();
    let mut v = p.to_vec();
    v[0] = 123;
    p.from_vec(&v);
    assert_eq!(p.piece_values[0], 123);
    let mut q = params();
    q.from_vec(&[]);
    assert_eq!(q.piece_values[0], 100);
}

#[test]
fn default_matches_legacy_material_values() {
    let p = params();
    for role in [Role::Pawn, Role::Knight, Role::Bishop, Role::Rook, Role::Queen] {
        assert_eq!(p.piece_value(role), PIECE_VALUES[role.code() as usize]);
    }
}

#[test]
fn pst_defaults_share_tables_for_majors() {
    let p = params();
    for role in [Role::Knight, Role::Bishop, Role::Rook, Role::Queen] {
        let k = role.code() as usize;
        for sq in 0..64 {
            assert_eq!(
                p.pst.tables[k][0][sq], p.pst.tables[k][1][sq],
                "majors share a table at {sq}"
            );
        }
    }
}

#[test]
fn parameters_out_of_all_measure_are_not_usable() {
    assert!(params().is_usable());
    assert_eq!(params().param_count(), 864);
    let mut p = params();
    p.piece_values[0] = 5_000;
    assert!(!p.is_usable());
}

// --- passed pawns ------------------------------------------------------------------------------

fn passed(fen: &str) -> Score {
    let (b, i, p) = parts(fen);
    evaluate_passed(&b, &i, &p, &params())
}

#[test]
fn passed_pawn_detection() {
    let s_blocked = passed("6k1/8/8/8/4p3/4P3/8/4K3 w - - 0 1");
    let s_open = passed("6k1/8/8/8/8/4P3/8/4K3 w - - 0 1");
    assert!(s_open.eg > s_blocked.eg, "passed pawn must score higher in eg");
    assert!(s_open.eg > 0);
}

#[test]
fn own_pawn_on_adjacent_file_does_not_block() {
    let s = passed("6k1/6p1/8/8/8/4P3/8/4K3 w - - 0 1");
    assert!(s.eg > 0);
}

#[test]
fn protected_passed_pawn_is_bonused() {
    let prot = Score::new(params().protected_passed[0], params().protected_passed[1]);
    let s_def = passed("6k1/8/8/8/1p1P4/2P5/8/4K3 w - - 0 1");
    let s_bare = passed("6k1/8/8/8/1p1P4/P7/8/4K3 w - - 0 1");
    assert_eq!(
        s_def.mg - s_bare.mg,
        prot.mg,
        "the rank-4 passer bonus is identical; only the protection differs"
    );
    assert_eq!(s_def.eg - s_bare.eg, prot.eg);
}

#[test]
fn connected_passed_pawns_are_bonused() {
    let r5 = params().passed_bonus[3];
    let conn = params().connected_passed;
    let s_twin = passed("6k1/8/8/2PP4/8/8/8/4K3 w - - 0 1");
    let s_single = passed("6k1/8/8/3P4/8/8/8/4K3 w - - 0 1");
    assert!(
        s_twin.mg > s_single.mg,
        "connected passers must beat the lone one: {} vs {}",
        s_twin.mg,
        s_single.mg
    );
    assert_eq!(
        s_twin.mg - s_single.mg,
        r5[0] + conn[0],
        "c5 passer adds rank-5 bonus and one connected pair"
    );
}

#[test]
fn passed_set_matches_hand_counts() {
    let scanned = parts("6k1/4p3/8/8/6P1/8/8/4K3 w - - 0 1");
    assert_eq!(bits::count(scanned.2.white), 1);
    assert!(bits::contains(scanned.2.white, 30));
    assert!(is_passed(30, Color::White, scanned.0.by_piece(Color::Black, Role::Pawn)));
    assert_eq!(scanned.2.of(Color::White), 1 << 30);
}

// --- pawns -------------------------------------------------------------------------------------

fn scans(fen: &str) -> PawnInfo {
    PawnInfo::scan(&board(fen))
}

#[test]
fn doubled_pawns_are_penalized() {
    let doubled = scans("6k1/8/8/8/8/P7/P7/4K3 w - - 0 1");
    let single = scans("6k1/8/8/8/8/8/P7/4K3 w - - 0 1");
    let s1 = evaluate_pawns(&single, &params());
    let s2 = evaluate_pawns(&doubled, &params());
    assert!(s1.mg - s2.mg >= 20, "doubled penalty expected");
}

#[test]
fn isolated_pawns_are_penalized() {
    let iso = scans("6k1/8/8/8/8/8/P1P5/4K3 w - - 0 1");
    let connected = scans("6k1/8/8/8/8/8/PPP5/4K3 w - - 0 1");
    let s_iso = evaluate_pawns(&iso, &params());
    let s_con = evaluate_pawns(&connected, &params());
    assert!(s_con.mg > s_iso.mg, "connected > isolated");
}

#[test]
fn attacks_are_computed() {
    let info = scans("6k1/8/8/8/3P4/8/8/4K3 w - - 0 1");
    assert!(bits::contains(info.white_attacks, 34));
    assert!(bits::contains(info.white_attacks, 36));
    assert!(bits::count(info.white_attacks) == 2);
}

#[test]
fn island_counting() {
    assert_eq!(islands(0b0000_0000), 0);
    assert_eq!(islands(0b0000_0001), 1);
    assert_eq!(islands(0b0000_0111), 1);
    assert_eq!(islands(0b0000_0101), 2);
    assert_eq!(islands(0b0110_0001), 2);
    assert_eq!(islands(0b1111_1111), 1);
}

#[test]
fn split_pawns_are_penalized_as_islands() {
    let chain = scans("6k1/8/8/8/8/PPP5/8/4K3 w - - 0 1");
    let split = scans("6k1/8/8/8/8/P1P3P1/8/4K3 w - - 0 1");
    let s_chain = evaluate_pawns(&chain, &params());
    let s_split = evaluate_pawns(&split, &params());
    assert!(
        s_chain.mg > s_split.mg,
        "one island must beat three: {} vs {}",
        s_chain.mg,
        s_split.mg
    );
}

#[test]
fn startpos_has_a_single_island_per_side() {
    let info = scans("rnbqkbnr/pppppppp/8/8/8/8/PPPPPPPP/RNBQKBNR w KQkq - 0 1");
    assert_eq!(islands(info.white_files), 1);
    assert_eq!(islands(info.black_files), 1);
}

#[test]
fn protected_pawns_are_bonused() {
    let defended = scans("6k1/8/8/8/8/PPP5/8/4K3 w - - 0 1");
    let lone = scans("6k1/8/8/8/8/P1P1P1P1/8/4K3 w - - 0 1");
    let s_def = evaluate_pawns(&defended, &params());
    let s_lone = evaluate_pawns(&lone, &params());
    assert!(s_def.mg > s_lone.mg, "protected chain must beat isolated pawns");
}

// --- phase -------------------------------------------------------------------------------------

#[test]
fn opening_is_phase_max() {
    assert_eq!(game_phase(Position::startpos().board(), &params()), PHASE_MAX);
}

#[test]
fn pawn_endgame_is_phase_zero() {
    assert_eq!(game_phase(&board("4k3/8/8/8/8/8/4P3/4K3 w - - 0 1"), &params()), 0);
}

#[test]
fn queen_endgame_phase() {
    assert_eq!(game_phase(&board("4k3/8/8/8/3Q4/8/8/4K3 w - - 0 1"), &params()), 4);
    assert_eq!(blend(Score::new(24, 0), 4), 4);
}

// --- squares -----------------------------------------------------------------------------------

fn pst_of(fen: &str) -> Score {
    evaluate_pst(&board(fen), &params())
}

#[test]
fn centered_knight_beats_corner_knight() {
    let s_center = pst_of("6k1/8/8/8/3N4/8/8/4K3 w - - 0 1");
    let s_corner = pst_of("6k1/8/8/8/8/8/8/N3K3 w - - 0 1");
    let s_none = pst_of("6k1/8/8/8/8/8/8/4K3 w - - 0 1");
    assert!(s_center.mg > s_corner.mg);
    assert!(s_center.mg > s_none.mg);
}

#[test]
fn pst_black_mirror_negates() {
    let s_w = pst_of("6k1/8/8/8/4P3/8/4N3/4K3 w - - 0 1");
    let s_m = pst_of("4k3/4n3/8/4p3/8/8/8/6K1 b - - 0 1");
    assert_eq!(s_w.mg, -s_m.mg);
    assert_eq!(s_w.eg, -s_m.eg);
}

#[test]
fn default_pst_match_legacy_tables() {
    let p = params();
    assert_eq!(p.pst.tables[1][0], tables::PAWN_MG);
    assert_eq!(p.pst.tables[1][1], tables::PAWN_EG);
    for (role, table) in [
        (Role::Knight, tables::KNIGHT),
        (Role::Bishop, tables::BISHOP),
        (Role::Rook, tables::ROOK),
        (Role::Queen, tables::QUEEN),
    ] {
        assert_eq!(p.pst.tables[role.code() as usize][0], table);
        assert_eq!(p.pst.tables[role.code() as usize][1], table);
    }
    assert_eq!(p.pst.tables[6][0], tables::KING_MG);
    assert_eq!(p.pst.tables[6][1], tables::KING_EG);
}

// --- threats -----------------------------------------------------------------------------------

#[test]
fn hanging_piece_is_bonus() {
    let ok = board("6k1/8/8/8/8/8/1b6/1R2K3 w - - 0 1");
    let s = evaluate_threats(&ok, &PawnInfo::scan(&ok), &params());
    assert!(s.mg > 0, "undefended bishop should be a threat bonus: {s:?}");
}

#[test]
fn rook_open_file_bonus() {
    let open = board("6k1/8/8/8/8/8/8/R3K3 w - - 0 1");
    let closed = board("6k1/p7/8/8/8/8/p7/R3K3 w - - 0 1");
    let s_open = evaluate_rooks(&open, &PawnInfo::scan(&open), &params());
    let s_closed = evaluate_rooks(&closed, &PawnInfo::scan(&closed), &params());
    assert!(s_open.mg > s_closed.mg);
}

#[test]
fn rook_on_seventh_bonus() {
    let seventh = board("7k/6R1/8/8/8/8/8/4K3 w - - 0 1");
    let first = board("7k/8/8/8/8/8/8/R3K3 w - - 0 1");
    let s_seventh = evaluate_rooks(&seventh, &PawnInfo::scan(&seventh), &params());
    let s_first = evaluate_rooks(&first, &PawnInfo::scan(&first), &params());
    assert!(s_seventh.mg > s_first.mg, "{s_seventh:?} vs {s_first:?}");
}

#[test]
fn space_bonus_scales_with_parameter() {
    let b = board("6k1/8/8/4PP2/3P4/8/8/4K3 w - - 0 1");
    let pi = PawnInfo::scan(&b);
    let base = params();
    let mut doubled = base;
    doubled.space_mg *= 2;
    doubled.space_eg *= 2;
    let s_base = evaluate_space(&b, &pi, &base);
    let s_double = evaluate_space(&b, &pi, &doubled);
    assert_eq!(s_double.mg, s_base.mg * 2, "mg scales with space_mg");
    assert_eq!(s_double.eg, s_base.eg * 2, "eg scales with space_eg");
}

#[test]
fn space_is_held_by_pawns_on_the_fourth_and_fifth_ranks() {
    let space = |fen: &str| {
        let b = board(fen);
        let s = evaluate_space(&b, &PawnInfo::scan(&b), &params());
        (s.mg, s.eg)
    };
    assert_eq!(space("6k1/8/8/8/3P4/8/8/4K3 w - - 0 1"), (4, 2));
    assert_eq!(space("4k3/8/8/3p4/8/8/8/6K1 w - - 0 1"), (-4, -2));
    assert_eq!(space("6k1/8/8/3P4/8/8/8/4K3 w - - 0 1"), (4, 2));
    assert_eq!(space("6k1/8/3P4/8/8/8/8/4K3 w - - 0 1"), (0, 0));
    assert_eq!(space("6k1/8/8/8/8/3P4/8/4K3 w - - 0 1"), (0, 0));
    // The pawns on d4 and e5 attack each other: neither holds space.
    assert_eq!(space("6k1/8/8/4p3/3P4/8/8/4K3 w - - 0 1"), (0, 0));
    // On the fifth rank the attack of a pawn does not matter.
    assert_eq!(space("6k1/8/4p3/3P4/8/8/8/4K3 w - - 0 1"), (4, 2));
}

#[test]
fn the_parts_of_an_evaluation_add_up() {
    for fen in [
        "rnbqkbnr/pppppppp/8/8/8/8/PPPPPPPP/RNBQKBNR w KQkq - 0 1",
        "r2q1rk1/ppp2ppp/2nbpn2/3p1b2/2PP4/2N1PN2/PP2BPPP/R1BQ1RK1 w - - 0 1",
    ] {
        let parts = Evaluator.evaluate_parts(&Position::from_fen(fen).unwrap());
        let total = parts.total();
        assert_eq!((total.mg, total.eg), (parts.total_mg, parts.total_eg), "{fen}");
    }
}

#[test]
fn the_bounds_of_the_tuner_can_be_used() {
    let bounds = EvalParams::bounds();
    let highest: Vec<i32> = bounds.iter().map(|b| b.max).collect();
    let lowest: Vec<i32> = bounds.iter().map(|b| b.min).collect();
    let mut p = EvalParams::default();
    p.from_vec(&highest);
    assert!(p.is_usable());
    p.from_vec(&lowest);
    assert!(p.is_usable());
    p.piece_values[4] = 1_000_000;
    assert!(!p.is_usable());
}
