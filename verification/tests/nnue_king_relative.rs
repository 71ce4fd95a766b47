//! The features for a piece on a square, seen from a king.
use morstilia::board::Position;
use morstilia::nnue::board::Board;
use morstilia::nnue::features::half_ka_v2_hm::{
    append_active_indices, append_changed_indices, king_bucket, make_index, orient_tbl,
    piece_square, requires_refresh, IndexList, DIMENSIONS,
};
use morstilia::nnue::types::{
    make_piece, Color, DirtyPiece, B_BISHOP, B_KING, B_KNIGHT, B_PAWN, B_QUEEN, B_ROOK, KING,
    NO_PIECE, ROOK, SQ_NONE, W_BISHOP, W_KING, W_KNIGHT, W_PAWN, W_QUEEN, W_ROOK,
};

// FEN square helpers, spelled out for readability in the assertions.
const A1: usize = 0;
const D1: usize = 3;
const E1: usize = 4;
const H1: usize = 7;
const A4: usize = 24;
const H4: usize = 31;
const E4: usize = 28;
const A5: usize = 32;
const H5: usize = 39;
const D5: usize = 35;
const A8: usize = 56;
const H8: usize = 63;
const D4: usize = 27;

#[test]
fn king_buckets_mirror_across_the_board() {
    // `min(file, 7 - file)` pairs a with h, b with g, c with f and d with e
    // — the mirror images that `OrientTBL` also applies to the pieces, so
    // the two half-tables cover the same 32 buckets each.
    for s in 0..64 {
        let mirrored = (7 - (s & 7)) + 8 * (s >> 3);
        assert_eq!(king_bucket(s), king_bucket(mirrored), "{s}");
        let bucket = king_bucket(s);
        assert!(
            (0..32).any(|k| k * 704 == bucket),
            "{s} -> {bucket} is not one of the 32 buckets"
        );
    }
    assert_eq!(king_bucket(A1), 28 * 704);
    assert_eq!(king_bucket(D1), 31 * 704);
    assert_eq!(king_bucket(E1), 31 * 704);
    assert_eq!(king_bucket(H1), 28 * 704);
    assert_eq!(king_bucket(A4), 16 * 704);
    assert_eq!(king_bucket(E4), 19 * 704);
    assert_eq!(king_bucket(A8), 0);
    assert_eq!(king_bucket(H8), 0);
}

#[test]
fn orient_table_splits_the_board_down_the_centre() {
    for s in 0..64 {
        assert_eq!(orient_tbl(s), if (s & 7) < 4 { 7 } else { 0 });
    }
}

#[test]
fn indices_stay_in_range_for_every_square_and_piece() {
    for ksq in 0..64 {
        for s in 0..64 {
            for pc in [W_KING, B_QUEEN, B_PAWN] {
                for p in [Color::White, Color::Black] {
                    let idx = make_index(p, s, pc, ksq) as usize;
                    assert!(
                        idx < DIMENSIONS,
                        "{p:?} {pc} on {s} with ksq {ksq} -> {idx}"
                    );
                }
            }
        }
    }
}

#[test]
fn a_piece_feature_is_king_bucket_relative() {
    // The whole feature is measured from the king, and the king on the a..d
    // half of the board mirrors the pieces so that both halves share one
    // bucket table. Mirroring therefore applies to the *piece* as well: a
    // knight on a5 with the king on a4 is the same feature as a knight on
    // h5 with the king on h4.
    let base = make_index(Color::White, A5, W_KNIGHT, A4) as i32;
    assert_eq!(base, make_index(Color::White, H5, W_KNIGHT, H4) as i32);
    // Crossing the centre line without mirroring the piece is a different
    // feature, which is the whole point of the compression.
    assert_ne!(base, make_index(Color::White, A5, W_KNIGHT, H4) as i32);
    // Moving the king along the mirrored half changes only the bucket.
    assert_ne!(base, make_index(Color::White, A5, W_KNIGHT, A5) as i32);
    assert_ne!(base, make_index(Color::White, A5, W_KNIGHT, H5) as i32);
    // The piece block dominates: two pieces on the same square differ by
    // exactly their `PieceSquareIndex` distance.
    assert_eq!(
        (make_index(Color::White, D4, B_QUEEN, A1) as i32)
            - (make_index(Color::White, D4, W_KNIGHT, A1) as i32),
        (piece_square(Color::White, B_QUEEN) - piece_square(Color::White, W_KNIGHT)) as i32
    );
}

#[test]
fn the_black_perspective_mirrors_the_board() {
    // Black's whole feature set is White's under a 180° rotation plus the
    // W/B piece-block swap, so the two indices are literally the same
    // number. This is what lets one weight row serve both perspectives.
    for &s in &[A1, D1, D4, A4, E4, A5, H5, A8, H8, 34, 41] {
        for &ksq in &[A1, D1, D4, A4, E4, A5, H5, A8, H8] {
            for &pc in &[
                W_PAWN, W_KNIGHT, W_BISHOP, W_ROOK, W_QUEEN, W_KING, B_PAWN, B_KNIGHT,
                B_BISHOP, B_ROOK, B_QUEEN, B_KING,
            ] {
                assert_eq!(
                    make_index(Color::Black, s, pc, ksq),
                    make_index(Color::White, s ^ 56, pc ^ 8, ksq ^ 56),
                    "black {pc} on {s} with ksq {ksq}"
                );
            }
        }
    }
    // So the king bucket really is taken through the rotation.
    assert_eq!(king_bucket(A1 ^ 56), king_bucket(H8));
    assert_eq!(king_bucket(D4 ^ 56), king_bucket(D5));
    assert_ne!(king_bucket(D4 ^ 56), king_bucket(D4));
    // But the two perspectives are *not* the same index for the same
    // board — the rotation of the pieces is what separates them.
    assert_ne!(
        make_index(Color::Black, D4, B_QUEEN, A1) as i32,
        make_index(Color::White, D4, W_QUEEN, A1) as i32
    );
}

#[test]
fn active_indices_cover_every_piece_once_per_perspective() {
    let pos = Position::from_fen(
        "r3k2r/p1ppqpb1/bn2pnp1/3PN3/1p2P3/2N2Q1p/PPPBBPPP/R3K2R w KQkq - 0 1",
    )
    .unwrap();
    let board = Board::from_position(&pos);
    for p in [Color::White, Color::Black] {
        let mut list = IndexList::new();
        append_active_indices(p, &board, &mut list);
        assert_eq!(
            list.size() as u32,
            board.piece_count(),
            "{p:?} should see every piece"
        );
    }
}

#[test]
fn changed_indices_emit_three_features_for_a_capture() {
    let dp = DirtyPiece {
        pc: W_KNIGHT,
        from: D4,
        to: 18,
        remove_sq: 18,
        add_sq: SQ_NONE,
        remove_pc: B_PAWN,
        add_pc: NO_PIECE,
    };
    let mut removed = IndexList::new();
    let mut added = IndexList::new();
    append_changed_indices(Color::White, A1, &dp, &mut removed, &mut added);
    assert_eq!(removed.size(), 2, "origin plus the captured piece");
    assert_eq!(added.size(), 1, "destination");
}

#[test]
fn a_promotion_reports_two_features() {
    let mut dp = DirtyPiece::new(W_KNIGHT, 18, SQ_NONE);
    dp.add_sq = 56;
    dp.add_pc = W_QUEEN;
    let mut removed = IndexList::new();
    let mut added = IndexList::new();
    append_changed_indices(Color::White, A1, &dp, &mut removed, &mut added);
    assert_eq!(removed.size(), 1, "the pawn leaves 18");
    assert_eq!(added.size(), 1, "the promoted piece arrives on 56");
    assert_eq!(removed.as_slice()[0], make_index(Color::White, 18, W_KNIGHT, A1));
    assert_eq!(added.as_slice()[0], make_index(Color::White, 56, W_QUEEN, A1));

    // A capturing promotion removes the victim and the pawn, and adds only
    // the promoted piece: two out, one in.
    let mut dp = DirtyPiece::new(W_KNIGHT, 18, SQ_NONE);
    dp.remove_sq = 56;
    dp.remove_pc = B_ROOK;
    dp.add_sq = 56;
    dp.add_pc = W_QUEEN;
    let mut removed = IndexList::new();
    let mut added = IndexList::new();
    append_changed_indices(Color::White, A1, &dp, &mut removed, &mut added);
    assert_eq!(removed.size(), 2);
    assert_eq!(added.size(), 1);
    assert_eq!(removed.as_slice()[1], make_index(Color::White, 56, B_ROOK, A1));
}

#[test]
fn a_castling_move_reports_three_features() {
    let rook = make_piece(0, ROOK);
    let dp = DirtyPiece {
        pc: make_piece(0, KING),
        from: 4,
        to: 6,
        remove_sq: 7,
        remove_pc: rook,
        add_sq: 5,
        add_pc: rook,
    };
    let mut removed = IndexList::new();
    let mut added = IndexList::new();
    append_changed_indices(Color::White, A1, &dp, &mut removed, &mut added);
    assert_eq!(removed.size(), 2, "e1 king and h1 rook");
    assert_eq!(added.size(), 2, "g1 king and f1 rook");
    assert_eq!(
        removed.as_slice()[0],
        make_index(Color::White, 4, make_piece(0, KING), A1)
    );
    assert_eq!(
        added.as_slice()[0],
        make_index(Color::White, 6, make_piece(0, KING), A1)
    );
    assert_eq!(removed.as_slice()[1], make_index(Color::White, 7, rook, A1));
    assert_eq!(added.as_slice()[1], make_index(Color::White, 5, rook, A1));
    assert!(requires_refresh(&dp, Color::White));
}

#[test]
fn only_a_king_move_forces_a_refresh() {
    let dp = DirtyPiece::new(make_piece(0, KING), A1, H1);
    assert!(requires_refresh(&dp, Color::White));
    assert!(!requires_refresh(&dp, Color::Black));
    let dp = DirtyPiece::new(W_KNIGHT, D4, 18);
    assert!(!requires_refresh(&dp, Color::White));
}
