//! Positions: counts of lines, hashes, moves and FENs.
use morstilia::board::state::{CastlingSide, PositionError};
use morstilia::board::Position;
use morstilia::nnue::types::Color;
use morstilia::types::RawMove;
use shakmaty::fen::Fen;
use shakmaty::zobrist::{Zobrist64, ZobristHash};
use shakmaty::{CastlingMode, Chess, EnPassantMode};

/// The hash from scratch of the position with a FEN.
fn full_hash(fen: &str) -> u64 {
    let pos: Chess = fen
        .parse::<Fen>()
        .unwrap()
        .into_position(CastlingMode::Standard)
        .unwrap();
    pos.zobrist_hash::<Zobrist64>(EnPassantMode::Legal).0
}

#[test]
fn incremental_hash_matches_full_during_random_play() {
    let mut pos = Position::startpos();
    assert_eq!(pos.hash(), full_hash(&pos.fen()));
    let mut state = 0x9E3779B97F4A7C15u64;
    let mut rnd = move || {
        state = state.wrapping_add(0x9E3779B97F4A7C15);
        let mut z = state;
        z = (z ^ (z >> 30)).wrapping_mul(0xBF58476D1CE4E5B9);
        z = (z ^ (z >> 27)).wrapping_mul(0x94D049BB133111EB);
        z ^ (z >> 31)
    };
    for _ in 0..200 {
        if pos.is_drawish() {
            break;
        }
        let moves = pos.legal_moves();
        if moves.is_empty() {
            break;
        }
        let pick = (rnd() % moves.len() as u64) as usize;
        let m = moves.get(pick);
        let child = pos.make_child(m);
        assert_eq!(child.hash(), full_hash(&child.fen()), "at fen {}", child.fen());
        pos = child;
    }
}

#[test]
fn perft_startpos_known_values() {
    let pos = Position::startpos();
    assert_eq!(pos.perft(1), 20);
    assert_eq!(pos.perft(2), 400);
    assert_eq!(pos.perft(3), 8_902);
    assert_eq!(pos.perft(4), 197_281);
}

#[test]
fn perft_kiwipete_known_values() {
    let pos = Position::from_fen(
        "r3k2r/p1ppqpb1/bn2pnp1/3PN3/1p2P3/2N2Q1p/PPPBBPPP/R3K2R w KQkq - 0 1",
    )
    .unwrap();
    assert_eq!(pos.perft(1), 48);
    assert_eq!(pos.perft(2), 2_039);
    assert_eq!(pos.perft(3), 97_862);
}

#[test]
fn perft_position3() {
    let pos = Position::from_fen("8/2p5/3p4/KP5r/1R3p1k/8/4P1P1/8 w - - 0 1").unwrap();
    assert_eq!(pos.perft(1), 14);
    assert_eq!(pos.perft(2), 191);
    assert_eq!(pos.perft(3), 2_812);
    assert_eq!(pos.perft(4), 43_238);
    assert_eq!(pos.perft(5), 674_624);
}

#[test]
fn perft_position4() {
    let pos =
        Position::from_fen("r3k2r/Pppp1ppp/1b3nbN/nP6/BBP1P3/q4N2/Pp1P2PP/R2Q1RK1 w kq - 0 1")
            .unwrap();
    assert_eq!(pos.perft(1), 6);
    assert_eq!(pos.perft(2), 264);
    assert_eq!(pos.perft(3), 9_467);
    assert_eq!(pos.perft(4), 422_333);
}

#[test]
fn perft_position5() {
    let pos = Position::from_fen("rnbq1k1r/pp1Pbppp/2p5/8/2B5/8/PPP1NnPP/RNBQK2R w KQ - 1 8")
        .unwrap();
    assert_eq!(pos.perft(1), 44);
    assert_eq!(pos.perft(2), 1_486);
    assert_eq!(pos.perft(3), 62_379);
}

#[test]
fn perft_position6() {
    let pos = Position::from_fen(
        "r4rk1/1pp1qppp/p1np1n2/2b1p1B1/2B1P1b1/P1NP1N2/1PP1QPPP/R4RK1 w - - 0 10",
    )
    .unwrap();
    assert_eq!(pos.perft(1), 46);
    assert_eq!(pos.perft(2), 2_079);
    assert_eq!(pos.perft(3), 89_890);
}

#[test]
fn null_move_illegal_in_check() {
    let pos = Position::from_fen("4k3/8/8/8/8/8/4r3/4K3 w - - 0 1").unwrap();
    assert!(pos.is_check());
    assert!(pos.null_move().is_none());
}

#[test]
fn null_move_swaps_turn_and_clears_ep() {
    let pos =
        Position::from_fen("rnbqkbnr/ppp1pppp/8/3pP3/8/8/PPPP1PPP/RNBQKBNR w KQkq d6 0 2").unwrap();
    assert_eq!(pos.facts().ep, 43);
    let nulled = pos.null_move().expect("null move ok");
    assert_eq!(nulled.turn(), Color::Black);
    assert!(!nulled.is_check());
    assert_eq!(nulled.facts().ep, 64);
}

#[test]
fn play_uci_round_trip() {
    let pos = Position::startpos();
    let (child, raw) = pos.play_uci("e2e4").unwrap();
    assert_eq!(raw.to_uci(), "e2e4");
    assert_eq!(child.turn(), Color::Black);
    assert!(pos.play_uci("e7e5").is_err(), "illegal for white to move");
}

#[test]
fn polyglot_key_startpos_matches_python_chess_reference() {
    let pos = Position::startpos();
    assert_eq!(pos.polyglot_key(), 0x463b96181691fc9c);
}

#[test]
fn polyglot_key_after_e4() {
    let pos = Position::startpos();
    let (child, _) = pos.play_uci("e2e4").unwrap();
    assert_eq!(child.polyglot_key(), 0x823c9b50fd114196);
}

#[test]
fn fen_round_trip() {
    let pos = Position::from_fen(
        "r3k2r/p1ppqpb1/bn2pnp1/3PN3/1p2P3/2N2Q1p/PPPBBPPP/R3K2R w KQkq - 0 1",
    )
    .unwrap();
    let fen = pos.fen();
    let pos2 = Position::from_fen(&fen).unwrap();
    assert_eq!(pos.facts(), pos2.facts());
    assert_eq!(pos.hash(), pos2.hash());
}

#[test]
fn castle_preserves_hash() {
    let pos = Position::from_fen("r3k2r/8/8/8/8/8/8/R3K2R w KQkq - 0 1").unwrap();
    let (o_o, raw) = pos.play_uci("e1g1").unwrap();
    assert!(raw.is_castle());
    assert_eq!(o_o.hash(), full_hash(&o_o.fen()));
    let (o_o_o, _) = pos.play_uci("e1c1").unwrap();
    assert_eq!(o_o_o.hash(), full_hash(&o_o_o.fen()));
    assert_ne!(o_o.hash(), o_o_o.hash());
}

// --- more -------------------------------------------------------------------------------------

#[test]
fn counts_come_first_move_by_first_move() {
    let pos = Position::startpos();
    assert_eq!(pos.perft(0), 1);
    assert_eq!(pos.perft_checked(3), Some(8_902));
    let (split, total) = pos.divide(3).unwrap();
    assert_eq!(split.len(), 20);
    assert_eq!(total, 8_902);
    assert_eq!(split.iter().map(|(_, n)| n).sum::<u64>(), 8_902);
    let e4 = split.iter().find(|(m, _)| m.to_uci() == "e2e4").unwrap();
    assert_eq!(e4.1, 600);
    assert_eq!(pos.perft_split(1).len(), 20);
}

#[test]
fn bad_texts_are_refused() {
    match Position::from_fen("nonsense") {
        Err(PositionError::InvalidFen(t)) => assert_eq!(t, "nonsense"),
        _ => panic!("not a FEN"),
    }
    match Position::from_fen("8/8/8/8/8/8/8/8 w - - 0 1") {
        Err(e) => assert_eq!(e.message(), "illegal FEN position: 8/8/8/8/8/8/8/8 w - - 0 1"),
        Ok(_) => panic!("no kings"),
    }
    let pos = Position::startpos();
    match pos.play_uci("zz") {
        Err(e) => assert_eq!(e.message(), "invalid UCI move: zz"),
        Ok(_) => panic!("not a move"),
    }
    match pos.play_uci("e2e5") {
        Err(e) => assert_eq!(e.message(), "illegal UCI move: e2e5"),
        Ok(_) => panic!("no such move"),
    }
}

#[test]
fn the_start_holds_what_it_should() {
    let pos = Position::startpos();
    assert_eq!(pos.fen(), "rnbqkbnr/pppppppp/8/8/8/8/PPPPPPPP/RNBQKBNR w KQkq - 0 1");
    assert_eq!(pos.turn(), Color::White);
    assert_eq!(pos.halfmoves(), 0);
    assert_eq!(pos.board().white, 0xffff);
    assert_eq!(pos.board().black, 0xffff_0000_0000_0000);
    assert!(pos.has_castling_right(Color::White, CastlingSide::KingSide));
    assert!(pos.has_castling_right(Color::Black, CastlingSide::QueenSide));
    assert!(!pos.is_check() && !pos.is_mated() && !pos.is_drawish());
}

#[test]
fn an_ep_square_that_cannot_be_used_is_not_written() {
    let (child, _) = Position::startpos().play_uci("e2e4").unwrap();
    assert_eq!(child.fen(), "rnbqkbnr/pppppppp/8/8/4P3/8/PPPP1PPP/RNBQKBNR b KQkq - 0 1");
}

#[test]
fn mate_and_bare_kings_are_seen() {
    let mated = Position::from_fen("7k/6Q1/6K1/8/8/8/8/8 b - - 0 1").unwrap();
    assert!(mated.is_mated() && mated.is_check());
    assert!(mated.legal_moves().is_empty());
    let bare = Position::from_fen("8/8/4k3/8/8/3K4/8/8 w - - 0 1").unwrap();
    assert!(bare.is_insufficient_material() && bare.is_drawish());
    let old = Position::from_fen("8/8/4k3/8/8/3K4/3R4/8 w - - 100 90").unwrap();
    assert!(!old.is_insufficient_material() && old.is_drawish());
}

#[test]
fn noisy_moves_leave_out_castling() {
    let pos = Position::from_fen("r3k2r/8/8/8/8/8/8/R3K2R w KQkq - 0 1").unwrap();
    let noisy = pos.capture_moves();
    for i in 0..noisy.len() {
        assert!(!noisy.get(i).is_castle());
    }
    assert_eq!(noisy.len(), 2);
    let ep =
        Position::from_fen("rnbqkbnr/ppp1pppp/8/3pP3/8/8/PPPP1PPP/RNBQKBNR w KQkq d6 0 2").unwrap();
    let noisy = ep.capture_moves();
    assert_eq!(noisy.len(), 1);
    assert!(noisy.get(0).is_en_passant());
    let promo = Position::from_fen("8/P6k/8/8/8/8/8/K7 w - - 0 1").unwrap();
    assert_eq!(promo.capture_moves().len(), 4);
}

#[test]
fn moves_are_told_from_others() {
    let pos = Position::startpos();
    let m = pos.raw_move_from_uci("g1f3").unwrap();
    assert!(pos.raw_move_legal(m));
    assert!(pos.raw_move_from_uci("g1g3").is_none());
    assert!(!pos.raw_move_legal(RawMove::null()));
    assert_eq!(RawMove::null().to_uci(), "a1a1");
    assert_eq!(pos.make_child(m).turn(), Color::Black);
    assert_eq!(pos.san_from_uci("g1f3").unwrap(), "Nf3");
    assert!(pos.san_from_uci("g1g3").is_none());
}

#[test]
fn a_passed_turn_keeps_the_board() {
    let pos = Position::startpos();
    let nulled = pos.null_move().unwrap();
    assert_eq!(nulled.board(), pos.board());
    assert_ne!(nulled.hash(), pos.hash());
}

#[test]
fn a_move_counts_on() {
    let pos = Position::startpos();
    let (pos, _) = pos.play_uci("g1f3").unwrap();
    assert_eq!(pos.facts().halfmoves, 1, "a knight move is counted");
    assert_eq!(pos.facts().fullmoves, 1, "Black has not moved yet");
    let (pos, _) = pos.play_uci("b8c6").unwrap();
    assert_eq!(pos.facts().halfmoves, 2);
    assert_eq!(pos.facts().fullmoves, 2, "both sides have moved");
    let (pos, _) = pos.play_uci("e2e4").unwrap();
    assert_eq!(pos.facts().halfmoves, 0, "a pawn move starts the count anew");
    let pos = Position::from_fen("4k3/8/8/8/8/8/3q4/4K3 w - - 17 40").unwrap();
    let child = pos.make_child(pos.raw_move_from_uci("e1d2").unwrap());
    assert_eq!(child.facts().halfmoves, 0, "so does a capture");
    assert_eq!(child.facts().fullmoves, 40);
}

#[test]
fn a_move_leaves_what_the_rules_leave() {
    let pos = Position::from_fen("r3k2r/8/8/8/8/8/P7/R3K2R w KQkq - 0 1").unwrap();
    let after = |uci: &str| {
        let child = pos.make_child(pos.raw_move_from_uci(uci).unwrap());
        (child.facts().castling, child.facts().ep)
    };
    let corners = 0x8100_0000_0000_0081u64;
    assert_eq!((pos.facts().castling, pos.facts().ep), (corners, 64));
    assert_eq!(after("a2a4"), (corners, 16), "the pawn ran past a3");
    assert_eq!(after("a2a3"), (corners, 64));
    assert_eq!(after("e1e2"), (0x8100_0000_0000_0000, 64));
    assert_eq!(after("e1g1"), (0x8100_0000_0000_0000, 64));
    assert_eq!(after("h1g1"), (0x8100_0000_0000_0001, 64));
    assert_eq!(after("h1h8"), (0x0100_0000_0000_0001, 64));
}
