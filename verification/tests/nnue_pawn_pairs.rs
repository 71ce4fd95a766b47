//! The features for pairs of pawns on neighbouring files.
use morstilia::board::Position;
use morstilia::nnue::board::Board;
use morstilia::nnue::features::full_threats::DIMENSIONS as THREAT_DIMENSIONS;
use morstilia::nnue::features::pp_3wide::{
    append_active_indices, append_changed_indices, make_index, make_pawn_id, IndexList, DIMENSIONS,
    INDEX_BASE, PAWN_IDS,
};
use morstilia::nnue::types::{Color, DirtyPawnPairs};
use std::collections::HashSet;

const A1: usize = 0;
const A2: usize = 8;
const A4: usize = 24;
const B4: usize = 25;
const C4: usize = 26;
const D4: usize = 27;
const A7: usize = 48;
const H7: usize = 55;

#[test]
fn index_base_continues_the_threat_block() {
    assert_eq!(INDEX_BASE, THREAT_DIMENSIONS);
    assert_eq!(INDEX_BASE + DIMENSIONS, 59808 + 4560);
}

#[test]
fn a_pair_is_unordered() {
    let ksq = A1;
    let a = make_index(Color::White, Color::White, A4, B4, Color::White, ksq);
    let b = make_index(Color::White, Color::White, B4, A4, Color::White, ksq);
    assert_eq!(a, b, "swapping the two pawns must not change the index");
}

#[test]
fn indices_stay_inside_the_pawn_pair_block() {
    // `from != to` is a precondition: a pawn never pairs with itself, and
    // with a single id the formula walks straight off the end of the block.
    for ksq in 0..64 {
        for from in A2..=H7 {
            for to in A2..=H7 {
                if from == to {
                    continue;
                }
                for c in [Color::White, Color::Black] {
                    for pc in [Color::White, Color::Black] {
                        let idx = make_index(Color::White, c, from, to, pc, ksq) as usize;
                        assert!(
                            idx >= INDEX_BASE && idx < INDEX_BASE + DIMENSIONS,
                            "{c:?}/{pc:?} {from}->{to} ksq {ksq} -> {idx}"
                        );
                    }
                }
            }
        }
    }
}

#[test]
fn distinct_pairs_get_distinct_indices() {
    // The feature is the *unordered* pair of pawn ids, and the id of a pawn
    // is `48 * oriented_colour + oriented_square - 8`. So the index must be
    // exactly the canonical upper-triangular address of that pair — which
    // proves both that nothing collides and that all 4560 are reachable.
    let mut canonical: HashSet<u32> = HashSet::new();
    for hi in 1..PAWN_IDS {
        for lo in 0..hi {
            canonical.insert((hi * (hi - 1) / 2 + lo + INDEX_BASE) as u32);
        }
    }
    assert_eq!(canonical.len(), DIMENSIONS, "4560 distinct pair features");

    // A king square on the a..d half gives orientation 0, which already
    // reaches all 96 pawn ids.
    for from in A2..=H7 {
        for to in A2..=H7 {
            if from == to {
                continue;
            }
            for c in [Color::White, Color::Black] {
                for pc in [Color::White, Color::Black] {
                    let id_a = make_pawn_id(c.idx(), from) as usize;
                    let id_b = make_pawn_id(pc.idx(), to) as usize;
                    let (hi, lo) = if id_a > id_b {
                        (id_a, id_b)
                    } else {
                        (id_b, id_a)
                    };
                    let want = (hi * (hi - 1) / 2 + lo + INDEX_BASE) as u32;
                    let got = make_index(Color::White, c, from, to, pc, A1);
                    assert_eq!(u32::from(got), want, "{c:?} {from} with {pc:?} {to}");
                    assert!(canonical.contains(&u32::from(got)));
                }
            }
        }
    }

    // The cross-colour same-square pairs are part of the space even though
    // two pawns can never share a square on a real board; they are what
    // makes the count 4560 rather than 4512.
    let same = make_index(Color::White, Color::White, A2, A2, Color::Black, A1);
    assert!(canonical.contains(&u32::from(same)));
}

#[test]
fn the_block_is_filled_exactly() {
    let mut best = 0usize;
    let mut worst = usize::MAX;
    for ksq in 0..64 {
        for c in [Color::White, Color::Black] {
            for pc in [Color::White, Color::Black] {
                for from in A2..=H7 {
                    for to in A2..=H7 {
                        if from == to {
                            continue;
                        }
                        let idx = make_index(Color::White, c, from, to, pc, ksq) as usize;
                        best = best.max(idx);
                        worst = worst.min(idx);
                    }
                }
            }
        }
    }
    assert_eq!(best, INDEX_BASE + DIMENSIONS - 1, "the top of the block");
    assert_eq!(worst, INDEX_BASE, "the bottom of the block");
}

#[test]
fn active_indices_cover_every_adjacent_pawn_pair() {
    // The band is the pawn's own file plus its two neighbouring files, and
    // each partner is only counted once — the scan pops the attacker off the
    // board before looking for partners. Four white pawns on a4 b4 c4 d4
    // therefore give the three chain links (a4,b4) (b4,c4) (c4,d4) and not
    // the three non-adjacent combinations.
    let pos = Position::from_fen("4k3/8/8/8/PPPP4/8/8/4K3 w - - 0 1").unwrap();
    let board = Board::from_position(&pos);
    let mut active = IndexList::new();
    append_active_indices(Color::White, &board, &mut active);
    assert_eq!(active.size(), 3, "only neighbouring files pair up");
    let ksq = board.king_square(Color::White);
    for i in active.as_slice() {
        assert!(
            active.as_slice().iter().filter(|j| *j == i).count() == 1,
            "index {i} appears twice"
        );
    }
    let expect = [
        make_index(Color::White, Color::White, A4, B4, Color::White, ksq),
        make_index(Color::White, Color::White, B4, C4, Color::White, ksq),
        make_index(Color::White, Color::White, C4, D4, Color::White, ksq),
    ];
    for e in expect {
        assert!(active.as_slice().contains(&e), "missing {e}");
    }
    // a4 and c4 are two files apart, so they must not pair.
    assert!(!active.as_slice().contains(&make_index(
        Color::White,
        Color::White,
        A4,
        C4,
        Color::White,
        ksq
    )));

    // Black-to-move perspective sees exactly the same three pairs: the
    // king square only rotates the board.
    let pos_b = Position::from_fen("4k3/8/8/8/PPPP4/8/8/4K3 b - - 0 1").unwrap();
    let board_b = Board::from_position(&pos_b);
    let mut active_b = IndexList::new();
    append_active_indices(Color::Black, &board_b, &mut active_b);
    assert_eq!(active_b.size(), 3);

    // A black pawn inside the white band pairs with it, and only with the
    // pawns whose own band reaches it: a4 is inside b4's band (files a..c)
    // but outside c4's and d4's, so `pPPP4` replaces no pair and adds just
    // the one mixed feature (b4, a4) — three in total, not four.
    let pos_m = Position::from_fen("4k3/8/8/8/pPPP4/8/8/4K3 w - - 0 1").unwrap();
    let board_m = Board::from_position(&pos_m);
    let mut active_m = IndexList::new();
    append_active_indices(Color::White, &board_m, &mut active_m);
    assert_eq!(active_m.size(), 3);
    let ksq = board_m.king_square(Color::White);
    assert!(active_m.as_slice().contains(&make_index(
        Color::White,
        Color::White,
        B4,
        A4,
        Color::Black,
        ksq
    )));
    // A mixed pair is always attributed to the *white* attacker, so a lone
    // black pawn beside a white one pairs, and a black pawn two files away
    // does not: `pP6` is a4=p b4=P, `pP1P4` is a4=p b4=P d4=P.
    let pos_n = Position::from_fen("4k3/8/8/8/pP6/8/8/4K3 w - - 0 1").unwrap();
    let board_n = Board::from_position(&pos_n);
    let mut active_n = IndexList::new();
    append_active_indices(Color::White, &board_n, &mut active_n);
    assert_eq!(active_n.size(), 1);
    let ksq = board_n.king_square(Color::White);
    assert!(active_n.as_slice().contains(&make_index(
        Color::White,
        Color::White,
        B4,
        A4,
        Color::Black,
        ksq
    )));

    let pos_n2 = Position::from_fen("4k3/8/8/8/pP1P4/8/8/4K3 w - - 0 1").unwrap();
    let board_n2 = Board::from_position(&pos_n2);
    let mut active_n2 = IndexList::new();
    append_active_indices(Color::White, &board_n2, &mut active_n2);
    assert_eq!(active_n2.size(), 1, "a4 and d4 are two files apart");

    // Same-colour black pairs come from the second scan: black a4 and b4
    // plus a white c4 give the black pair (a4,b4) and the mixed (c4,b4).
    let pos_p = Position::from_fen("4k3/8/8/8/ppP5/8/8/4K3 w - - 0 1").unwrap();
    let board_p = Board::from_position(&pos_p);
    let mut active_p = IndexList::new();
    append_active_indices(Color::White, &board_p, &mut active_p);
    assert_eq!(active_p.size(), 2);
    let ksq = board_p.king_square(Color::White);
    assert!(active_p.as_slice().contains(&make_index(
        Color::White,
        Color::Black,
        A4,
        B4,
        Color::Black,
        ksq
    )));
    assert!(active_p.as_slice().contains(&make_index(
        Color::White,
        Color::White,
        C4,
        B4,
        Color::Black,
        ksq
    )));
}

#[test]
fn a_pawn_push_only_touches_its_own_pairs() {
    let pos = Position::from_fen("4k3/8/8/8/PPPP4/8/8/4K3 w - - 0 1").unwrap();
    let board = Board::from_position(&pos);
    let before = {
        let mut l = IndexList::new();
        append_active_indices(Color::White, &board, &mut l);
        l
    };

    // Push a4 -> a5: (a4,b4) is destroyed and (a5,b4) is created, because
    // a5 is still inside b4's band. b4's other partners are untouched.
    let child = pos.make_child(pos.raw_move_from_uci("a4a5").unwrap());
    let after_board = Board::from_position(&child);
    let diff = DirtyPawnPairs {
        before: [board.pawns(Color::White), board.pawns(Color::Black)],
        after: [
            after_board.pawns(Color::White),
            after_board.pawns(Color::Black),
        ],
    };
    let ksq = board.king_square(Color::White);
    let mut removed = IndexList::new();
    let mut added = IndexList::new();
    append_changed_indices(Color::White, ksq, &diff, &mut removed, &mut added);
    assert_eq!(removed.size(), 1);
    assert_eq!(added.size(), 1);
    let a4_b4 = make_index(Color::White, Color::White, A4, B4, Color::White, ksq);
    let a5_b4 = make_index(Color::White, Color::White, 32, B4, Color::White, ksq);
    assert_eq!(removed.as_slice()[0], a4_b4, "(a4,b4) is destroyed");
    assert_eq!(added.as_slice()[0], a5_b4, "(a5,b4) is created");
    assert!(before.as_slice().contains(&a4_b4));
}

/// The strongest statement available: for *every* legal move the emitted
/// `removed`/`added` lists must be exactly the symmetric difference of the
/// active index sets before and after. A missing or spurious index corrupts
/// the accumulator, so this walks a wide slice of the move space.
///
/// Moves that move the *perspective's own* king are skipped: the king
/// square enters the index formula, so such a move legitimately rewrites
/// every index. That case is covered by the accumulator's
/// "incremental update equals full refresh" test, which refreshes instead.
#[test]
fn changed_indices_are_exactly_the_symmetric_difference() {
    const FENS: [&str; 8] = [
        "rnbqkbnr/pppppppp/8/8/8/8/PPPPPPPP/RNBQKBNR w KQkq - 0 1",
        "r3k2r/p1ppqpb1/bn2pnp1/3PN3/1p2P3/2N2Q1p/PPPBBPPP/R3K2R w KQkq - 0 1",
        "8/2p5/3p4/KP5r/1R3p1k/8/4P1P1/8 w - - 0 1",
        "r3k2r/Pppp1ppp/1b3nbN/nP6/BBP1P3/q4N2/Pp1P2PP/R2Q1RK1 w kq - 0 1",
        "4k3/8/8/8/PPPP4/8/8/4K3 w - - 0 1",
        "4k3/pppppppp/8/8/8/8/PPPPPPPP/4K3 w - - 0 1",
        "8/8/8/8/p1p1p1p1/P1P1P1P1/8/4K2k w - - 0 1",
        "rnbqkbnr/ppp1pppp/8/3p4/4P3/8/PPPP1PPP/RNBQKBNR w KQkq d6 0 2",
    ];
    let mut checked = 0usize;
    for fen in FENS {
        let pos = Position::from_fen(fen).unwrap();
        let board = Board::from_position(&pos);
        for perspective in [Color::White, Color::Black] {
            let ksq_before = board.king_square(perspective);
            let mut before = IndexList::new();
            append_active_indices(perspective, &board, &mut before);
            let before_sorted: Vec<u16> = {
                let mut v = before.as_slice().to_vec();
                v.sort_unstable();
                v
            };

            for &m in pos.legal_moves().as_slice() {
                let child = pos.make_child(m);
                let cb = Board::from_position(&child);
                if cb.king_square(perspective) != ksq_before {
                    continue;
                }
                let diff = DirtyPawnPairs {
                    before: [board.pawns(Color::White), board.pawns(Color::Black)],
                    after: [cb.pawns(Color::White), cb.pawns(Color::Black)],
                };
                let mut removed = IndexList::new();
                let mut added = IndexList::new();
                append_changed_indices(
                    perspective,
                    ksq_before,
                    &diff,
                    &mut removed,
                    &mut added,
                );
                checked += 1;

                let mut after = IndexList::new();
                append_active_indices(perspective, &cb, &mut after);
                let after_sorted: Vec<u16> = {
                    let mut v = after.as_slice().to_vec();
                    v.sort_unstable();
                    v
                };

                // Every removed index was active before and is gone after;
                // every added index is new and is active afterwards.
                let mut expect_removed: Vec<u16> = before_sorted
                    .iter()
                    .copied()
                    .filter(|i| !after_sorted.contains(i))
                    .collect();
                let mut expect_added: Vec<u16> = after_sorted
                    .iter()
                    .copied()
                    .filter(|i| !before_sorted.contains(i))
                    .collect();
                let mut got_removed = removed.as_slice().to_vec();
                let mut got_added = added.as_slice().to_vec();
                expect_removed.sort_unstable();
                expect_added.sort_unstable();
                got_removed.sort_unstable();
                got_added.sort_unstable();
                assert_eq!(
                    got_removed, expect_removed,
                    "{fen} {m:?} {perspective:?}: removed set differs"
                );
                assert_eq!(
                    got_added, expect_added,
                    "{fen} {m:?} {perspective:?}: added set differs"
                );
            }
        }
    }
    assert!(checked > 250, "only checked {checked} moves");
}

#[test]
fn an_unchanged_pawn_set_produces_nothing() {
    let pos = Position::from_fen("4k3/8/8/8/PPPP4/8/8/4K3 w - - 0 1").unwrap();
    let board = Board::from_position(&pos);
    let diff = DirtyPawnPairs {
        before: [board.pawns(Color::White), board.pawns(Color::Black)],
        after: [board.pawns(Color::White), board.pawns(Color::Black)],
    };
    let mut removed = IndexList::new();
    let mut added = IndexList::new();
    append_changed_indices(Color::White, A1, &diff, &mut removed, &mut added);
    assert!(removed.is_empty() && added.is_empty());
}

#[test]
fn pawn_ids_stay_inside_the_ranks_they_occupy() {
    // A white pawn on a2 is id 0, on a7 id 40 (six rank-steps above a2).
    assert_eq!(make_pawn_id(0, A2), 0);
    assert_eq!(make_pawn_id(0, A2 + 1), 1);
    assert_eq!(make_pawn_id(0, A7), 40);
    assert_eq!(make_pawn_id(0, H7), 47);
    assert_eq!(make_pawn_id(1, A2), 48);
}

#[test]
fn crowded_files_still_fit_into_a_list() {
    // Two files full of pawns and four on a third: the most pairs that sixteen
    // pawns can have.
    let mut white = 0u64;
    let mut black = 0u64;
    let mut n = 0;
    for file in [3usize, 4, 5] {
        for rank in 1..7usize {
            if n < 16 {
                let bit = 1u64 << (8 * rank + file);
                if n % 2 == 0 {
                    white |= bit;
                } else {
                    black |= bit;
                }
                n += 1;
            }
        }
    }
    let diff = DirtyPawnPairs {
        before: [0, 0],
        after: [white, black],
    };
    let mut removed = IndexList::new();
    let mut added = IndexList::new();
    append_changed_indices(Color::White, A1, &diff, &mut removed, &mut added);
    assert_eq!(removed.size(), 0);
    assert_eq!(added.size(), 96);
    let distinct: HashSet<u16> = added.as_slice().iter().copied().collect();
    assert_eq!(distinct.len(), 96);
}
