//! Squares that pieces aim at, lines between squares, and shifts.
use morstilia::nnue::attacks::{
    attacks_bb, knight_attacks, pawn_attacks, pawn_pair_bb, pseudo_attacks, ray_pass_bb,
    shift_north_east, shift_north_west, shift_south_east, shift_south_west, sliding_attacks,
    FILE_A, FILE_B, FILE_C, FILE_F, FILE_G, FILE_H, RANK_1, RANK_8,
};
use morstilia::nnue::types::{Color, BISHOP, KING, QUEEN, ROOK};

/// `d4` is index 27, `a1` is 0.
const D4: usize = 27;
const A1: usize = 0;

#[test]
fn leaper_tables_match_stockfish() {
    // Knight on d4 attacks b3, b5, c2, c6, e2, e6, f3, f5.
    assert_eq!(
        knight_attacks(D4),
        (1 << 17)
            | (1 << 33)
            | (1 << 10)
            | (1 << 42)
            | (1 << 12)
            | (1 << 44)
            | (1 << 21)
            | (1 << 37),
        "Nd4",
    );
    assert_eq!(knight_attacks(D4), 0x0000_1422_0022_1400, "Nd4, verbatim");

    // King on a1 attacks a2, b1, b2.
    assert_eq!(pseudo_attacks(KING, A1), 0x302);
    assert_eq!(pseudo_attacks(KING, A1).count_ones(), 3);
    assert_eq!(pseudo_attacks(KING, A1) & (1 << A1), 0, "no self attack");

    // Pawn on e4 (28) attacks d5 (35) and f5 (37) as White, d3 (19) and
    // f3 (21) as Black.
    assert_eq!(pawn_attacks(Color::White, 28), (1 << 35) | (1 << 37));
    assert_eq!(pawn_attacks(Color::Black, 28), (1 << 19) | (1 << 21));
    assert_eq!(pawn_attacks(Color::White, A1), 1 << 9, "a1 attacks only b2");
    assert_eq!(pawn_attacks(Color::Black, 15), 1 << 6, "h2 attacks only g1");
    assert_eq!(pawn_attacks(Color::White, 7), 1 << 14, "h1 shifts up to g3");
    assert_eq!(pawn_attacks(Color::Black, 8), 1 << 1, "a2 attacks only b1");
}

#[test]
fn sliding_attacks_stop_on_the_blocker() {
    assert_eq!(sliding_attacks(ROOK, A1, 0), 0x0101_0101_0101_01fe);
    assert_eq!(
        sliding_attacks(ROOK, A1, 0),
        pseudo_attacks(ROOK, A1),
        "the table is unblocked"
    );
    // From d4: the whole d-file (7 squares) plus a4..c4 and e4..h4 — 14
    // squares, the origin excluded.
    assert_eq!(
        pseudo_attacks(BISHOP, D4), 0x8041_2214_0014_2241,
        "Bd4 on an empty board"
    );
    assert_eq!(
        pseudo_attacks(ROOK, D4), 0x0808_0808_f708_0808,
        "Rd4 on an empty board"
    );
    assert_eq!(pseudo_attacks(BISHOP, D4).count_ones(), 13, "Bd4's two diagonals");
    assert_eq!(pseudo_attacks(ROOK, D4).count_ones(), 14, "Rd4's file and rank");
    assert_eq!(sliding_attacks(ROOK, D4, 0), pseudo_attacks(ROOK, D4));
    assert_eq!(sliding_attacks(BISHOP, D4, 0), pseudo_attacks(BISHOP, D4));
    assert_eq!(pseudo_attacks(BISHOP, D4) & (1 << D4), 0, "no self attack");
    assert_eq!(pseudo_attacks(ROOK, D4) & (1 << D4), 0, "no self attack");
    // Spot-check the decoded squares rather than trusting the hex.
    assert_eq!(pseudo_attacks(ROOK, D4) >> 3 & 1, 1, "d1");
    assert_eq!(pseudo_attacks(ROOK, D4) >> 11 & 1, 1, "d2");
    assert_eq!(pseudo_attacks(ROOK, D4) >> 19 & 1, 1, "d3");
    assert_eq!(pseudo_attacks(ROOK, D4) >> 24 & 1, 1, "a4");
    assert_eq!(pseudo_attacks(ROOK, D4) >> 31 & 1, 1, "h4");
    assert_eq!(pseudo_attacks(ROOK, D4) >> 35 & 1, 1, "d5");
    assert_eq!(pseudo_attacks(ROOK, D4) >> 59 & 1, 1, "d8");
    // d4's two diagonals: a1 b2 c3 / e3 f2 g1 / c5 e5 / b6 f6 / a7 h7 / h8.
    for s in [0, 9, 18, 20, 13, 6, 34, 36, 41, 45, 48, 54, 63] {
        assert_eq!(pseudo_attacks(BISHOP, D4) >> s & 1, 1, "Bd4 sees {s}");
    }
    assert_eq!(pseudo_attacks(BISHOP, D4).count_ones(), 13, "and nothing else");

    // A blocker on a2 stops the rook's file ray after a2: a1 attacks a2 but
    // nothing beyond it.
    let a = sliding_attacks(ROOK, A1, 1 << 8);
    assert_eq!(a & FILE_A, 1 << 8, "the blocker square is included");
    assert_eq!(a & FILE_A, 0x100, "a2 only");

    // The blocker square itself is always attacked.
    let occ = 1u64 << 24;
    let a = sliding_attacks(ROOK, A1, occ);
    assert!(a & (1 << 24) != 0, "the blocker square is included");
    assert!(a & (1 << 32) == 0, "nothing beyond the blocker");
    // a1 is not in the set; a2, a3 and the blocker a4 are.
    assert_eq!(a & FILE_A, (1 << 8) | (1 << 16) | (1 << 24));
    assert_eq!(a & FILE_A, 0x0101_0100);

    assert_eq!(
        sliding_attacks(ROOK, A1, 1 << A1) & FILE_A,
        FILE_A & !(1 << A1)
    );
    assert_eq!(sliding_attacks(BISHOP, A1, 1 << A1), pseudo_attacks(BISHOP, A1));
    // A blocker *on* the ray stops it. With a6 blocked the a-file ray is
    // a2..a6 inclusive; the origin is never in the set.
    assert_eq!(
        sliding_attacks(ROOK, A1, 1 << A1 | 1 << 40) & FILE_A,
        FILE_A & !(1 << A1) & !((0xffu64 << 48) | RANK_8)
    );

    // Queen = rook + bishop, and a blocked queen is the union of the two
    // blocked sets.
    assert_eq!(
        attacks_bb(QUEEN, D4, 0),
        sliding_attacks(BISHOP, D4, 0) | sliding_attacks(ROOK, D4, 0)
    );
    let occ = (1 << 20) | (1 << 36);
    assert_eq!(
        attacks_bb(QUEEN, D4, occ),
        sliding_attacks(BISHOP, D4, occ) | sliding_attacks(ROOK, D4, occ)
    );
}

#[test]
fn ray_pass_bb_matches_the_stockfish_formula() {
    assert_eq!(ray_pass_bb(A1, 24), 0x0101_0101_0101_0100);
    // The mirror direction is a1 and the two squares between: a1 counts as
    // a blocker, so the ray stops there and a2/a3 are not included.
    assert_eq!(ray_pass_bb(24, A1), 0x0001_0101);
    // Diagonal: a1's attack set meets the whole a1-h8 diagonal.
    assert_eq!(ray_pass_bb(A1, 63), 0x8040_2010_0804_0200);
    assert_eq!(
        ray_pass_bb(A1, 9),
        0x8040_2010_0804_0200,
        "a1-b2 shares the diagonal"
    );
    // d1 and h6 are not aligned.
    assert_eq!(ray_pass_bb(3, 60), 0);
    // A knight's move away is never aligned.
    assert_eq!(ray_pass_bb(A1, 17), 0);
}

#[test]
fn pawn_pair_bb_is_file_neighbours_ranks_2_to_7() {
    // d4: the d-file and its two neighbours, ranks 2..7, minus d4 itself.
    assert_eq!(pawn_pair_bb(D4), 0x001c_1c1c_141c_1c00);
    let b = pawn_pair_bb(D4);
    assert_eq!(b & (1 << D4), 0, "own square excluded");
    assert_eq!(b & RANK_1, 0, "rank 1 excluded");
    assert_eq!(b & RANK_8, 0, "rank 8 excluded");
    assert_eq!(b.count_ones(), 17, "3 files x 6 ranks - own square");
    // Every square of files c..e on ranks 2..7 except d4.
    for f in 2..=4usize {
        for r in 1..=6usize {
            let s = r * 8 + f;
            assert_eq!(b & (1 << s) != 0, s != D4, "c2..e7 coverage at {s}");
        }
    }
    // a-file: the a- and b-files only.
    assert_eq!(pawn_pair_bb(8), 0x0003_0303_0303_0200);
    assert_eq!(pawn_pair_bb(8) & FILE_C, 0, "a-file pawns do not reach c");
    assert_eq!(
        pawn_pair_bb(8) & FILE_B,
        FILE_B & !(RANK_1 | RANK_8),
        "b2..b7"
    );
    // h-file: the g- and h-files only.
    assert_eq!(pawn_pair_bb(15), 0x00c0_c0c0_c0c0_4000);
    assert_eq!(pawn_pair_bb(15) & FILE_F, 0, "h-file pawns do not reach f");
    assert_eq!(
        pawn_pair_bb(15) & FILE_G,
        FILE_G & !(RANK_1 | RANK_8),
        "g2..g7"
    );
    // The band is colour-independent, so it is the same on rank 1 and rank 8
    // apart from the origin square itself.
    assert_eq!(
        pawn_pair_bb(0) & FILE_B,
        FILE_B & !(RANK_1 | RANK_8) & !(1 << 1)
    );
    assert_eq!(
        pawn_pair_bb(63) & FILE_G,
        FILE_G & !(RANK_1 | RANK_8) & !(1 << 62)
    );
}

#[test]
fn ray_pass_is_symmetric_in_the_diagonal_case() {
    // Not a property of the data, but a cheap guard: for a rook pair the
    // two directions are computed by the same expression, so a1->a4 and
    // a4->a1 must both be non-zero whenever the squares share a ray.
    for s1 in [A1, 9, 27, 36, 63] {
        for s2 in [A1, 9, 27, 36, 63] {
            if s1 != s2 && ray_pass_bb(s1, s2) != 0 {
                assert_ne!(ray_pass_bb(s2, s1), 0, "{s1}->{s2}");
            }
        }
    }
}

#[test]
fn directional_shifts_do_not_wrap_files() {
    // h4 (31) shifted north-east would wrap onto a5 without the mask.
    assert_eq!(shift_north_east(1u64 << 31), 0);
    // a4 (24) shifted north-west would wrap onto h5 without the mask.
    assert_eq!(shift_north_west(1u64 << 24), 0);
    // A normal file-internal shift.
    assert_eq!(shift_north_east(1u64 << 28), 1u64 << 37, "e4 -> f5");
    assert_eq!(shift_south_west(1u64 << 37), 1u64 << 28, "f5 -> e4");
    // The h-file masked off entirely for north-east, the a-file for
    // north-west.
    assert_eq!(shift_north_east(FILE_H), 0);
    assert_eq!(shift_north_west(FILE_A), 0);
    assert_eq!(shift_south_east(FILE_H), 0);
    assert_eq!(shift_south_west(FILE_A), 0);
}
