//! The features for attacks between pieces.
use morstilia::board::Position;
use morstilia::nnue::attacks::{pawn_attacks, pseudo_attacks};
use morstilia::nnue::board::Board;
use morstilia::nnue::features::full_threats::{
    append_active_indices, append_changed_indices, block_of, make_index, num_valid_targets,
    orient_tbl, pair_base, IndexList, DIMENSIONS,
};
use morstilia::nnue::features::half_ka_v2_hm;
use morstilia::nnue::types::{
    type_of, Color, DirtyThreat, DirtyThreats, ALL_PIECES, B_KNIGHT, B_PAWN, B_ROOK, PAWN, W_KING,
    W_PAWN, W_ROOK,
};
use std::collections::HashSet;

/// Which targets an attacker of each type has, by piece type less one.
const MAP: [[i8; 6]; 6] = [
    [-1, 0, -1, 1, -1, -1],
    [0, 1, 2, 3, 4, -1],
    [0, 1, 2, 3, -1, -1],
    [0, 1, 2, 3, -1, -1],
    [0, 1, 2, 3, 4, -1],
    [-1, -1, -1, -1, -1, -1],
];

const A1: usize = 0;
const E1: usize = 4;
const E2: usize = 12;
const D3: usize = 19;
const F3: usize = 21;
const D4: usize = 27;
const H8: usize = 63;

#[test]
fn orient_table_is_the_mirror_image_of_half_ka() {
    for s in 0..64 {
        assert_ne!(
            orient_tbl(s),
            half_ka_v2_hm::orient_tbl(s),
            "square {s} should mirror the other way"
        );
    }
}

#[test]
fn offset_blocks_tile_the_whole_index_space() {
    // Every attacker block must start where the previous one ended, and the
    // last block must end exactly at DIMENSIONS.
    let mut running = 0u32;
    for piece in ALL_PIECES {
        let helper = block_of(piece);
        assert_eq!(helper.1, running, "block base of {piece}");
        running += num_valid_targets(piece) * helper.0;
    }
    assert_eq!(running as usize, DIMENSIONS);
}

#[test]
fn index_lut1_excludes_impossible_pairs() {
    // Pawn -> pawn is excluded outright.
    assert_eq!(
        pair_base(W_PAWN, W_PAWN, false),
        DIMENSIONS as u32
    );
    // A king never threatens anything in this set.
    assert_eq!(
        pair_base(W_KING, B_PAWN, false),
        DIMENSIONS as u32
    );
    // Rook -> pawn is fine (a file or a rank away).
    assert!(pair_base(W_ROOK, B_PAWN, false) < DIMENSIONS as u32);
    // A white rook threatening a white rook with from < to is semi-excluded.
    assert_eq!(
        pair_base(W_ROOK, W_ROOK, true),
        DIMENSIONS as u32
    );
    assert!(pair_base(W_ROOK, W_ROOK, false) < DIMENSIONS as u32);
}

#[test]
fn distinct_threats_get_distinct_indices() {
    for ksq in [A1, E1, D4, H8] {
        for perspective in [Color::White, Color::Black] {
            let mut seen: HashSet<u32> = HashSet::new();
            for attacker in ALL_PIECES {
                let pt = type_of(attacker);
                for from in 0..64 {
                    if pt == PAWN && !(8..=55).contains(&from) {
                        continue;
                    }
                    let pseudo = if pt == PAWN {
                        let c = if attacker < 8 {
                            Color::White
                        } else {
                            Color::Black
                        };
                        pawn_attacks(c, from)
                    } else {
                        pseudo_attacks(pt, from)
                    };
                    let mut tos = pseudo;
                    while tos != 0 {
                        let to = tos.trailing_zeros() as usize;
                        tos &= tos - 1;
                        for attacked in ALL_PIECES {
                            let idx =
                                make_index(perspective, attacker, from, to, attacked, ksq);
                            if (idx as usize) < DIMENSIONS {
                                assert!(
                                    seen.insert(u32::from(idx)),
                                    "collision at {idx}: {attacker} on {from} \
                                     attacks {attacked} on {to}, {perspective:?} ksq {ksq}"
                                );
                            }
                        }
                    }
                }
            }
        }
    }
}

/// `index_lut1[..][from < to]` is set to `Dimensions` whenever the
/// attacker and the attacked piece share a piece type and are either
/// enemies or are not pawns. Of the two orders of such a mutual threat
/// exactly one survives and the pair folds onto a single feature. That is
/// the only deduplication the set performs, and it is what stops a pair of
/// knights — friendly or not — from claiming two features for one
/// relationship. Relations the `map` drops outright are dead in both
/// orders.
#[test]
fn semi_excluded_threats_fold_to_one_feature() {
    fn map_of(attacker: u8, attacked: u8) -> i8 {
        MAP[(type_of(attacker) - 1) as usize][(type_of(attacked) - 1) as usize]
    }
    for ksq in [A1, E1, D4, H8] {
        for perspective in [Color::White, Color::Black] {
            for attacker in ALL_PIECES {
                for attacked in ALL_PIECES {
                    let enemy = (attacker ^ attacked) == 8;
                    let semi = type_of(attacker) == type_of(attacked)
                        && (enemy || type_of(attacker) != PAWN);
                    for from in 0..64 {
                        for to in 0..64 {
                            if from == to {
                                continue;
                            }
                            // Pawn index space exists only on ranks 2..7;
                            // outside it the offsets are all zero and the
                            // "threat" aliases onto the rank-2 block.
                            if type_of(attacker) == PAWN
                                && !((8..=55).contains(&from) && (8..=55).contains(&to))
                            {
                                continue;
                            }
                            let fwd =
                                make_index(perspective, attacker, from, to, attacked, ksq);
                            let rev =
                                make_index(perspective, attacker, to, from, attacked, ksq);
                            let fwd_live = (fwd as usize) < DIMENSIONS;
                            let rev_live = (rev as usize) < DIMENSIONS;
                            if map_of(attacker, attacked) < 0 {
                                assert!(
                                    !fwd_live && !rev_live,
                                    "{attacker} -> {attacked} is excluded by the map \
                                     in both orders"
                                );
                            } else if semi {
                                // Exactly one of the two orders survives:
                                // `from_oriented < to_oriented` picks the
                                // semi-excluded slot.
                                assert_ne!(
                                    fwd_live, rev_live,
                                    "{attacker} on {from} vs {attacked} on {to}: \
                                     exactly one order must survive"
                                );
                            } else {
                                // A different type or colour is a genuinely
                                // different relationship in each direction,
                                // and both directions are live.
                                assert!(
                                    fwd_live && rev_live,
                                    "{attacker} on {from} vs {attacked} on {to}: \
                                     both orders must survive"
                                );
                                assert_ne!(
                                    fwd, rev,
                                    "different relations must be different features"
                                );
                            }
                        }
                    }
                }
            }
        }
    }
}

#[test]
fn the_last_valid_index_is_dimensions_minus_one() {
    let mut best = 0u32;
    for ksq in [A1, E1, H8] {
        for attacker in ALL_PIECES {
            for from in 0..64 {
                for to in 0..64 {
                    for attacked in ALL_PIECES {
                        let idx = make_index(Color::White, attacker, from, to, attacked, ksq);
                        if (idx as usize) < DIMENSIONS {
                            best = best.max(u32::from(idx));
                        }
                    }
                }
            }
        }
    }
    assert_eq!(
        best as usize,
        DIMENSIONS - 1,
        "the space must be used exactly"
    );
}

#[test]
fn pawn_threats_only_target_knights_and_rooks() {
    // White pawn e2 sees d3 and f3. A black pawn on d3 must be ignored
    // (`MAP[PAWN][PAWN] == -1`) while a black knight on f3 counts.
    let pos = Position::from_fen("7k/8/8/8/8/3p1n2/4P3/K7 w - - 0 1").unwrap();
    let board = Board::from_position(&pos);
    let mut active = IndexList::new();
    append_active_indices(Color::White, &board, &mut active);

    let ksq = board.king_square(Color::White);
    let to_knight = make_index(Color::White, W_PAWN, E2, F3, B_KNIGHT, ksq);
    let to_pawn = make_index(Color::White, W_PAWN, E2, D3, B_PAWN, ksq);

    assert!(
        (to_knight as usize) < DIMENSIONS,
        "pawn -> knight is a live feature"
    );
    assert!(
        (to_pawn as usize) >= DIMENSIONS,
        "pawn -> pawn is excluded by the map"
    );
    assert!(active.as_slice().contains(&to_knight), "pawn -> knight");
    assert!(!active.as_slice().contains(&to_pawn), "pawn -> pawn");
    assert_eq!(active.size(), 1, "d3 holds a pawn and must be skipped");

    // A rook target counts just as a knight does: black rook on d3.
    let pos_r = Position::from_fen("7k/8/8/8/8/3r4/4P3/K7 w - - 0 1").unwrap();
    let board_r = Board::from_position(&pos_r);
    let mut active_r = IndexList::new();
    append_active_indices(Color::White, &board_r, &mut active_r);
    let ksq = board_r.king_square(Color::White);
    let to_rook = make_index(Color::White, W_PAWN, E2, D3, B_ROOK, ksq);
    assert!((to_rook as usize) < DIMENSIONS, "pawn -> rook is live");
    assert!(active_r.as_slice().contains(&to_rook), "pawn -> rook");
    assert_eq!(active_r.size(), 1);
}

#[test]
fn active_indices_are_in_range_and_non_trivial() {
    let pos = Position::from_fen(
        "r3k2r/p1ppqpb1/bn2pnp1/3PN3/1p2P3/2N2Q1p/PPPBBPPP/R3K2R w KQkq - 0 1",
    )
    .unwrap();
    let board = Board::from_position(&pos);
    for p in [Color::White, Color::Black] {
        let mut active = IndexList::new();
        append_active_indices(p, &board, &mut active);
        assert!(active.size() > 10, "{p:?} should see many threats");
        for i in active.as_slice() {
            assert!((*i as usize) < DIMENSIONS, "index {i} out of range");
        }
    }
}

#[test]
fn changed_indices_split_by_the_add_flag() {
    let ksq = A1;
    let rook = W_ROOK;
    // A white rook on b1 threatening a black pawn on b4: the threat exists
    // before the pawn arrives and is gone afterwards, so the same dirty
    // record with the flag flipped lands in the other list.
    let threat = DirtyThreat::new(rook, B_PAWN, 1, 27, true);
    let mut added = IndexList::new();
    let mut removed = IndexList::new();
    let mut diff = DirtyThreats::new();
    diff.push(threat);
    append_changed_indices(Color::White, ksq, &diff, &mut removed, &mut added);
    assert_eq!(added.size(), 1, "an added threat goes to `added`");
    assert_eq!(removed.size(), 0);

    let mut diff2 = DirtyThreats::new();
    diff2.push(DirtyThreat::new(rook, B_PAWN, 1, 27, false));
    let mut added2 = IndexList::new();
    let mut removed2 = IndexList::new();
    append_changed_indices(Color::White, ksq, &diff2, &mut removed2, &mut added2);
    assert_eq!(added2.size(), 0);
    assert_eq!(removed2.size(), 1, "a removed threat goes to `removed`");
    assert_eq!(added.as_slice()[0], removed2.as_slice()[0], "the flag must not change the index");

    // An excluded relation produces nothing at all, whichever list it would
    // have gone to: `push_if_lt` drops it.
    let mut diff3 = DirtyThreats::new();
    diff3.push(DirtyThreat::new(W_PAWN, B_PAWN, E2, D3, true));
    let mut added3 = IndexList::new();
    let mut removed3 = IndexList::new();
    append_changed_indices(Color::White, ksq, &diff3, &mut removed3, &mut added3);
    assert!(added3.is_empty() && removed3.is_empty(), "pawn -> pawn");
}

/// How often each feature is in a list.
fn tally(l: &IndexList) -> Vec<i32> {
    let mut n = vec![0; DIMENSIONS];
    for &i in l.as_slice() {
        n[i as usize] += 1;
    }
    n
}

#[test]
fn changed_features_make_up_the_difference() {
    for fen in [
        "r3k2r/p1ppqpb1/bn2pnp1/3PN3/1p2P3/2N2Q1p/PPPBBPPP/R3K2R w KQkq - 0 1",
        "q2q1q2/PPPPPPPP/8/8/4k3/8/8/4K3 w - - 0 1",
        "4k3/8/8/2Pp4/8/8/8/4K3 w - d6 0 2",
    ] {
        let pos = Position::from_fen(fen).unwrap();
        let board = Board::from_position(&pos);
        for &m in pos.legal_moves().as_slice() {
            let d = board.apply_move(m, pos.turn());
            assert!(d.dirty_threats.list.size() <= 96);
            for p in [Color::White, Color::Black] {
                if half_ka_v2_hm::requires_refresh(&d.dirty_piece, p) {
                    continue;
                }
                let mut before = IndexList::new();
                let mut after = IndexList::new();
                append_active_indices(p, &board, &mut before);
                append_active_indices(p, &d.board, &mut after);
                let mut removed = IndexList::new();
                let mut added = IndexList::new();
                append_changed_indices(
                    p,
                    d.board.king_square(p),
                    &d.dirty_threats,
                    &mut removed,
                    &mut added,
                );
                let (b, a) = (tally(&before), tally(&after));
                let (r, n) = (tally(&removed), tally(&added));
                for i in 0..DIMENSIONS {
                    assert_eq!(a[i] - b[i], n[i] - r[i], "{} in {fen}", m.to_uci());
                }
            }
        }
    }
}
