//! The board that features are read from, and what a move changes on it.
use morstilia::board::Position;
use morstilia::nnue::board::Board;
use morstilia::nnue::types::{
    type_of, Color, B_KING, B_ROOK, NO_PIECE, PAWN, SQ_NONE, W_KING, W_KNIGHT, W_PAWN, W_ROOK,
};

const A1: usize = 0;
const C1: usize = 2;
const D1: usize = 3;
const D5: usize = 35;
const E1: usize = 4;
const F1: usize = 5;
const G1: usize = 6;
const H1: usize = 7;
const A8: usize = 56;
const C8: usize = 58;
const D8: usize = 59;
const H8: usize = 63;
const F8: usize = 61;
const G8: usize = 62;

/// Walks the whole legal move tree, applying each move through
/// `apply_move` and checking the resulting board against a freshly built
/// one from the shakmaty position. This is the invariant the whole NNUE
/// layer rests on.
#[test]
fn apply_move_reproduces_the_child_board() {
    let fens = [
        "rnbqkbnr/pppppppp/8/8/8/8/PPPPPPPP/RNBQKBNR w KQkq - 0 1",
        "r3k2r/p1ppqpb1/bn2pnp1/3PN3/1p2P3/2N2Q1p/PPPBBPPP/R3K2R w KQkq - 0 1",
        "8/2p5/3p4/KP5r/1R3p1k/8/4P1P1/8 w - - 0 1",
        "r3k2r/Pppp1ppp/1b3nbN/nP6/BBP1P3/q4N2/Pp1P2PP/R2Q1RK1 w kq - 0 1",
        "r4rk1/1pp1qppp/p1np1n2/2b1p1B1/2B1P1b1/P1NP1N2/1PP1QPPP/R4RK1 w - - 0 10",
    ];
    for fen in fens {
        let pos = Position::from_fen(fen).unwrap();
        let board = Board::from_position(&pos);
        verify(pos, board, 3);
    }
}

fn verify(pos: Position, board: Board, depth: u32) {
    // Spot-check the rebuild against the position itself.
    let placed = pos.board();
    for s in 0..64 {
        match placed.role_at(s) {
            Some(role) => {
                let expected = ((placed.black >> s & 1) as u8) << 3 | role.code();
                assert_eq!(board.piece_on(s), expected, "{s} in {}", pos.fen());
            }
            None => assert_eq!(board.piece_on(s), NO_PIECE),
        }
    }
    let us = pos.turn();
    if depth == 0 {
        return;
    }
    for &m in pos.legal_moves().as_slice() {
        let child = pos.make_child(m);
        let d = board.apply_move(m, us);
        let child_board = Board::from_position(&child);
        assert_eq!(d.board, child_board, "move {}", m.to_uci());
        assert_eq!(d.dirty_piece.pc, board.piece_on(m.from()));
        // The pawn-pair record brackets the move: it only changes when a
        // pawn leaves or arrives — as the mover or as the victim.
        let moved = d.dirty_piece.pc;
        let removed = d.dirty_piece.remove_pc;
        let touches_pawn = type_of(moved) == PAWN
            || (removed != NO_PIECE && type_of(removed) == PAWN)
            || (d.dirty_piece.add_pc != NO_PIECE
                && type_of(d.dirty_piece.add_pc) == PAWN);
        assert_eq!(
            d.dirty_pawn_pairs.before == d.dirty_pawn_pairs.after,
            !touches_pawn,
            "move {} changed the pawn set unexpectedly",
            m.to_uci()
        );
        verify(child, child_board, depth - 1);
    }
}

#[test]
fn capture_uses_swap_and_promotion_uses_add_sq() {
    let pos = Position::from_fen(
        "rnbqkbnr/ppp1pppp/8/3pP3/8/8/PPPP1PPP/RNBQKBNR w KQkq d6 0 2",
    )
    .unwrap();
    let board = Board::from_position(&pos);
    let us = Color::White;

    // e5xd6 e.p.
    let ep = pos.raw_move_from_uci("e5d6").unwrap();
    let d = board.apply_move(ep, us);
    assert_eq!(d.dirty_piece.pc, W_PAWN);
    assert_eq!(d.dirty_piece.remove_sq, D5, "the captured pawn leaves d5");
    assert_eq!(d.dirty_piece.add_sq, SQ_NONE);

    // a7a8=N under-promotion
    let pos2 = Position::from_fen("8/P7/8/8/8/8/8/4k1K1 w - - 0 1").unwrap();
    let b2 = Board::from_position(&pos2);
    let promo = pos2.raw_move_from_uci("a7a8n").unwrap();
    let d2 = b2.apply_move(promo, Color::White);
    assert_eq!(
        d2.dirty_piece.to,
        SQ_NONE,
        "to is cleared"
    );
    assert_eq!(d2.dirty_piece.add_sq, A8);
    assert_eq!(
        d2.dirty_piece.add_pc,
        W_KNIGHT,
        "knight, not queen"
    );
}

#[test]
fn castling_reports_the_king_destination() {
    let pos = Position::from_fen("r3k2r/8/8/8/8/8/8/R3K2R w KQkq - 0 1").unwrap();
    let board = Board::from_position(&pos);

    let oo = pos.raw_move_from_uci("e1g1").unwrap();
    let d = board.apply_move(oo, Color::White);
    assert_eq!(d.dirty_piece.pc, W_KING);
    assert_eq!(d.dirty_piece.to, G1, "king destination, not the rook");
    assert_eq!(d.dirty_piece.remove_sq, H1);
    assert_eq!(d.dirty_piece.add_sq, F1);
    assert_eq!(d.dirty_piece.remove_pc, W_ROOK);
    assert_eq!(d.dirty_piece.add_pc, W_ROOK);
    assert_eq!(d.board.piece_on(G1), W_KING);
    assert_eq!(d.board.piece_on(F1), W_ROOK);
    assert_eq!(d.board.piece_on(H1), NO_PIECE);
    assert_eq!(d.board.piece_on(E1), NO_PIECE);

    let oo_o = pos.raw_move_from_uci("e1c1").unwrap();
    let d2 = board.apply_move(oo_o, Color::White);
    assert_eq!(d2.dirty_piece.to, C1);
    assert_eq!(d2.dirty_piece.remove_sq, A1);
    assert_eq!(d2.dirty_piece.add_sq, D1);

    // Black kingside: e8g8 -> king g8, rook f8. Castling rights are the
    // mover's own, so this needs a position with Black to move.
    let bpos =
        Position::from_fen("r3k2r/8/8/8/8/8/8/R3K2R b KQkq - 0 1").unwrap();
    let bboard = Board::from_position(&bpos);
    let oo_b = bpos.raw_move_from_uci("e8g8").unwrap();
    let d3 = bboard.apply_move(oo_b, Color::Black);
    assert_eq!(d3.dirty_piece.pc, B_KING);
    assert_eq!(d3.dirty_piece.to, G8);
    assert_eq!(d3.dirty_piece.add_sq, F8);
    assert_eq!(d3.dirty_piece.remove_sq, H8);
    assert_eq!(d3.board.piece_on(G8), B_KING);
    assert_eq!(d3.board.piece_on(F8), B_ROOK);
    assert_eq!(d3.board.piece_on(H8), NO_PIECE);

    // Black queenside: e8c8 -> king c8, rook d8.
    let oo_b_o = bpos.raw_move_from_uci("e8c8").unwrap();
    let d4 = bboard.apply_move(oo_b_o, Color::Black);
    assert_eq!(d4.dirty_piece.to, C8);
    assert_eq!(d4.dirty_piece.add_sq, D8);
    assert_eq!(d4.dirty_piece.remove_sq, A8);
}

#[test]
fn dirty_threat_list_stays_within_the_documented_capacity() {
    // The densest legal positions we can cheaply build, then every legal
    // move in them. A normal move touches at most 80 features and castling
    // at most 36, so the 96-slot list must never overflow.
    let fens = [
        "r3k2r/p1ppqpb1/bn2pnp1/3PN3/1p2P3/2N2Q1p/PPPBBPPP/R3K2R w KQkq - 0 1",
        "rnbq1k1r/pp1Pbppp/2p5/8/2B5/8/PPP1NnPP/RNBQK2R w KQ - 1 8",
        "QQQQQQQQ/QQQQQQQQ/8/8/8/8/qqqqqqqq/qqqqqqqq/K6k w - - 0 1",
        "8/2p5/3p4/KP5r/1R3p1k/8/4P1P1/8 w - - 0 1",
    ];
    let mut worst = 0usize;
    for fen in fens {
        let Ok(pos) = Position::from_fen(fen) else {
            continue;
        };
        let board = Board::from_position(&pos);
        let us = pos.turn();
        for &m in pos.legal_moves().as_slice() {
            let d = board.apply_move(m, us);
            worst = worst.max(d.dirty_threats.list.size());
            assert!(
                d.dirty_threats.list.size() <= 96,
                "{} produced {} threats",
                m.to_uci(),
                d.dirty_threats.list.size()
            );
        }
    }
    assert!(worst > 0);
}

#[test]
fn non_pawn_material_matches_a_hand_count() {
    let pos = Position::from_fen(
        "rnbqkbnr/pppppppp/8/8/8/8/PPPPPPPP/RNBQKBNR w KQkq - 0 1",
    )
    .unwrap();
    let board = Board::from_position(&pos);
    // 2N + 2B + 2R + 1Q per side, both sides counted.
    let expect = 2 * (2 * 781 + 2 * 825 + 2 * 1276 + 2538);
    assert_eq!(expect, 16_604);
    assert_eq!(board.non_pawn_material(), expect);
    assert_eq!(board.piece_count(), 32);

    let pos = Position::from_fen("8/8/8/4k3/8/8/4P3/4K3 w - - 0 1").unwrap();
    let board = Board::from_position(&pos);
    assert_eq!(board.non_pawn_material(), 0, "pawns and kings are worth 0");
    assert_eq!(board.piece_count(), 3);
}
