//! Networks, running sums and the score of a position.
use morstilia::board::Position;
use morstilia::nnue::accumulator::{Accumulator, AccumulatorStack};
use morstilia::nnue::board::Board;
use morstilia::nnue::features::half_ka_v2_hm;
use morstilia::nnue::network::{
    clipped_relu, sqr_clipped_relu, Affine, FeatureTransformer, LayerStack, Network,
    NetworkOutput, FEATURE_TRANSFORMER_HASH, INPUT_DIMENSIONS, L1, LAYER_STACK_HASH, NETWORK_HASH,
    OTHER_DIMENSIONS, PSQT_BUCKETS, PSQ_DIMENSIONS,
};
use morstilia::nnue::format::{LEB128_MAGIC, VERSION};
use morstilia::nnue::types::{Color, KNIGHT, PIECE_VALUE, QUEEN, ROOK};
use morstilia::nnue::{
    blend, board_and_meta, embedded_network_size, evaluate, evaluate_checked,
    load_embedded_network, net_base, non_pawn_material_of, resolve_net_path, EvalMeta,
};
use morstilia::types::MAX_PLY;

/// A number below `span` that depends on `i` and `salt` alone.
fn spread(i: usize, salt: u32, span: u32) -> u32 {
    let x = (i as u32).wrapping_mul(0x9E37_79B1).wrapping_add(salt);
    (x ^ (x >> 15)).wrapping_mul(0x85EB_CA77) % span
}

/// A layer with small weights of either sign.
fn layer<const IN: usize, const OUT: usize>(salt: u32) -> Affine<IN, OUT> {
    let biases = (0..OUT)
        .map(|i| spread(i, salt, 400) as i32 - 200)
        .collect();
    let weights = (0..OUT * Affine::<IN, OUT>::pad_in())
        .map(|i| (spread(i, salt + 1, 13) as i32 - 6) as i8)
        .collect();
    Affine::from_parts(biases, weights).unwrap()
}

/// A feature transformer whose rows all differ.
fn test_transformer() -> FeatureTransformer {
    let biases = (0..L1).map(|i| spread(i, 1, 120) as i16).collect();
    let psq = (0..PSQ_DIMENSIONS * L1)
        .map(|i| spread(i, 2, 61) as i16 - 30)
        .collect();
    let psqt = (0..PSQ_DIMENSIONS * PSQT_BUCKETS)
        .map(|i| spread(i, 3, 2001) as i32 - 1000)
        .collect();
    let other = (0..OTHER_DIMENSIONS * L1)
        .map(|i| (spread(i, 4, 21) as i32 - 10) as i8)
        .collect();
    let other_psqt = (0..OTHER_DIMENSIONS * PSQT_BUCKETS)
        .map(|i| spread(i, 5, 201) as i32 - 100)
        .collect();
    FeatureTransformer::from_blocks(biases, psq, psqt, other, other_psqt).unwrap()
}

/// A network with fixed weights of either sign.
fn test_net() -> Network {
    let stacks = (0..8)
        .map(|b| LayerStack::from_layers(layer(100 + b), layer(200 + b), layer(300 + b)))
        .collect();
    Network::from_parts(test_transformer(), stacks, String::from("test"))
}

#[test]
fn structural_hashes_match_stockfish() {
    assert_eq!(FEATURE_TRANSFORMER_HASH, 0xCB68_5313);
    assert_eq!(LAYER_STACK_HASH, 0x6333_7116);
    assert_eq!(NETWORK_HASH, 0xA85B_2205);
}

#[test]
fn input_dimensions_are_the_sum_of_the_feature_sets() {
    assert_eq!(INPUT_DIMENSIONS, 22528 + 59808 + 4560);
    assert_eq!(INPUT_DIMENSIONS, 86_896);
}

#[test]
fn row_accessors_return_the_right_slices() {
    let idx = 7usize;
    let psq: Vec<i16> = (0..PSQ_DIMENSIONS * L1).map(|i| i as i16).collect();
    let psqt: Vec<i32> = (0..PSQ_DIMENSIONS * PSQT_BUCKETS)
        .map(|i| i as i32)
        .collect();
    let other: Vec<i8> = (0..OTHER_DIMENSIONS * L1)
        .map(|i| (i % 251) as i8)
        .collect();
    let other_psqt: Vec<i32> = (0..OTHER_DIMENSIONS * PSQT_BUCKETS)
        .map(|i| i as i32)
        .collect();
    let ft = FeatureTransformer::from_blocks(
        vec![0; L1],
        psq.clone(),
        psqt.clone(),
        other.clone(),
        other_psqt.clone(),
    )
    .unwrap();
    let w = ft.weight_row(idx);
    assert_eq!(w.len(), L1);
    assert_eq!(w, &psq[idx * L1..(idx + 1) * L1]);
    let o = ft.other_weight_row(idx);
    assert_eq!(o.len(), L1);
    assert_eq!(o, &other[idx * L1..(idx + 1) * L1]);
    let p = ft.psqt_weight_row(idx);
    assert_eq!(p.len(), PSQT_BUCKETS);
    assert_eq!(p, &psqt[idx * PSQT_BUCKETS..(idx + 1) * PSQT_BUCKETS]);
    let q = ft.other_psqt_row(idx);
    assert_eq!(q.len(), PSQT_BUCKETS);
    assert_eq!(q, &other_psqt[idx * PSQT_BUCKETS..(idx + 1) * PSQT_BUCKETS]);
    // And the first row really is the base of the block.
    assert_eq!(ft.weight_row(0), &psq[..L1]);
    assert_eq!(ft.other_weight_row(0), &other[..L1]);
    assert_eq!(ft.psqt_weight_row(0), &psqt[..PSQT_BUCKETS]);
    assert_eq!(ft.other_psqt_row(0), &other_psqt[..PSQT_BUCKETS]);
}

#[test]
fn affine_skips_zero_inputs_but_still_sums_correctly() {
    // Two outputs, four inputs. Row j is `weights[j * pad_in() + i]`, and
    // `pad_in()` is a multiple of 32, so the padding columns must be ignored.
    const IN: usize = 4;
    const OUT: usize = 2;
    let weights: Vec<i8> = (0..OUT * Affine::<IN, OUT>::pad_in())
        .map(|i| (i as i32 % 7 - 3) as i8)
        .collect();
    let layer = Affine::<IN, OUT>::from_parts(vec![10, -10], weights.clone()).unwrap();
    let input = [0u8, 5, 0, 3];
    let out = layer.propagate(&input);
    for j in 0..OUT {
        let mut expect = [10i32, -10][j];
        for i in 0..IN {
            expect += i32::from(weights[j * Affine::<IN, OUT>::pad_in() + i])
                * i32::from(input[i]);
        }
        assert_eq!(out[j], expect, "output {j}");
    }
}

#[test]
fn padding_is_a_multiple_of_thirty_two() {
    assert_eq!(Affine::<64, 32>::pad_in(), 64);
    assert_eq!(Affine::<128, 1>::pad_in(), 128);
    assert_eq!(Affine::<33, 4>::pad_in(), 64);
}

#[test]
fn activations_match_stockfish_semantics() {
    // Clipped: clamp(x >> bits, 0, 127).
    assert_eq!(clipped_relu(-1, 7), 0);
    assert_eq!(clipped_relu(0, 7), 0);
    assert_eq!(clipped_relu(127 << 7, 7), 127);
    assert_eq!(clipped_relu(1 << 20, 7), 127, "saturates at 127");
    assert_eq!(clipped_relu(-(1 << 20), 6), 0);
    assert_eq!(sqr_clipped_relu(0, 7), 0);
    assert_eq!(sqr_clipped_relu(-128, 7), 0, "negative squares to zero");
    assert_eq!(sqr_clipped_relu(2048, 7), 2, "2048*2048 >> 21 == 2");
    assert_eq!(sqr_clipped_relu(16384, 7), 127, "saturates at 127");
    assert_eq!(sqr_clipped_relu(1024, 6), 2, "1024*1024 >> 19 == 2");
    assert_eq!(sqr_clipped_relu(8192, 6), 127, "saturates at 127");
    // A shift of 21 really is 21: one bit less would give a different
    // answer, which pins the constant.
    assert_eq!(sqr_clipped_relu(4096, 7), 8, "4096*4096 >> 21 == 8");
}

#[test]
fn feature_transform_clips_both_halves_independently() {
    let mut acc = [0i16; L1];
    // Two units: one saturated pair, one with a negative half.
    acc[0] = 300;
    acc[L1 / 2] = 300;
    acc[1] = -50;
    acc[1 + L1 / 2] = 400;
    acc[2] = 4;
    acc[2 + L1 / 2] = 0;
    let mut out = [0u8; L1];
    Network::transform_perspective(&acc, &mut out, 0);
    assert_eq!(out[0], 127, "255*255/512 == 127");
    assert_eq!(out[1], 0, "a negative half zeroes the product");
    assert_eq!(out[2], 0);
    assert_eq!(out[L1 / 2..], [0u8; L1 / 2], "the second half is untouched");

    // The `offset` selects the perspective half of the same output array.
    let mut out = [0u8; L1];
    Network::transform_perspective(&acc, &mut out, L1 / 2);
    assert_eq!(out[L1 / 2], 127);
    assert_eq!(out[..L1 / 2], [0u8; L1 / 2]);
}

/// The invariant that makes the whole design work: replaying a move
/// incrementally must produce bit-identical accumulators to refreshing the
/// child from scratch. Checked over a decent sample of move kinds.
#[test]
fn incremental_update_equals_full_refresh() {
    let ft = test_transformer();
    let fens = [
        "rnbqkbnr/pppppppp/8/8/8/8/PPPPPPPP/RNBQKBNR w KQkq - 0 1",
        "r3k2r/p1ppqpb1/bn2pnp1/3PN3/1p2P3/2N2Q1p/PPPBBPPP/R3K2R w KQkq - 0 1",
        "r3k2r/p1ppqpb1/bn2pnp1/3PN3/1p2P3/2N2Q1p/PPPBBPPP/R3K2R b KQkq - 0 1",
        "8/2p5/3p4/KP5r/1R3p1k/8/4P1P1/8 w - - 0 1",
        "r3k2r/Pppp1ppp/1b3nbN/nP6/BBP1P3/q4N2/Pp1P2PP/R2Q1RK1 w kq - 0 1",
        "rnbq1k1r/pp1Pbppp/2p5/8/2B5/8/PPP1NnPP/RNBQK2R w KQ - 1 8",
        "4k3/8/8/2Pp4/8/8/8/4K3 w - d6 0 2",
        "4k3/8/8/3pP3/8/8/8/4K3 w - d6 0 2",
        "8/2p5/3p4/KP5r/1R3p1k/8/4P1P1/8 b - - 0 1",
        // Both castlings, both colours: the king move forces a refresh and
        // the rook is a second dirty piece on top of it.
        "r3k2r/8/8/8/8/8/8/R3K2R w KQkq - 0 1",
        "r3k2r/8/8/8/8/8/8/R3K2R b KQkq - 0 1",
        // Every straight promotion available, plus three capture-promotions
        // onto the queens on the eighth rank. The black king is well out of
        // the way: white pawns on the seventh attack the eighth rank, so a
        // black king up there would be in check with White to move.
        "q2q1q2/PPPPPPPP/8/8/4k3/8/8/4K3 w - - 0 1",
        "4k3/8/8/8/8/8/PPPPPPPP/4K3 w - - 0 1",
        // And the same again with Black to move, so the promotions are
        // exercised from the other perspective.
        "q7/pppppppp/8/8/4K3/8/8/4k3 b - - 0 1",
        // Doubled and tripled pawns on adjacent files: the maximum number of
        // pawn-pair features the set can hold.
        "4k3/8/8/8/PPP1PPPP/8/8/4K3 w - - 0 1",
        "4k3/8/8/8/PPPPPPPP/8/8/4K3 w - - 0 1",
    ];

    let mut checked = 0usize;
    for fen in fens {
        let pos = Position::from_fen(fen).unwrap();
        let us = pos.turn();
        let board = Board::from_position(&pos);
        let mut parent = Accumulator::new();
        parent.refresh(Color::White, &board, &ft);
        parent.refresh(Color::Black, &board, &ft);

        for &m in pos.legal_moves().as_slice() {
            let d = board.apply_move(m, us);
            let mut incremental = Accumulator::new();
            for p in [Color::White, Color::Black] {
                let ksq = d.board.king_square(p);
                if half_ka_v2_hm::requires_refresh(&d.dirty_piece, p) {
                    incremental.refresh(p, &d.board, &ft);
                } else {
                    incremental.update_incremental(
                        p,
                        ksq,
                        &parent,
                        &d.dirty_piece,
                        &d.dirty_threats,
                        &d.dirty_pawn_pairs,
                        &ft,
                    );
                }

                let mut fresh = Accumulator::new();
                fresh.refresh(p, &d.board, &ft);
                assert_eq!(
                    incremental.accumulation[p.idx()],
                    fresh.accumulation[p.idx()],
                    "accumulation mismatch after {} in {fen} ({p:?})",
                    m.to_uci()
                );
                assert_eq!(
                    incremental.psqt[p.idx()],
                    fresh.psqt[p.idx()],
                    "psqt mismatch after {} in {fen} ({p:?})",
                    m.to_uci()
                );
            }
            checked += 1;
        }
    }
    assert!(checked > 300, "only checked {checked} moves");
}

/// A null move changes nothing on the board, so the accumulator must be
/// literally the parent's.
#[test]
fn a_null_move_reuses_the_parent_accumulator() {
    let ft = test_transformer();
    let pos = Position::from_fen(
        "r3k2r/p1ppqpb1/bn2pnp1/3PN3/1p2P3/2N2Q1p/PPPBBPPP/R3K2R w KQkq - 0 1",
    )
    .unwrap();
    let board = Board::from_position(&pos);
    let mut parent = Accumulator::new();
    parent.refresh(Color::White, &board, &ft);
    parent.refresh(Color::Black, &board, &ft);
    let child = pos.null_move().expect("no check here");
    let child_board = Board::from_position(&child);
    let mut fresh = Accumulator::new();
    fresh.refresh(Color::White, &child_board, &ft);
    fresh.refresh(Color::Black, &child_board, &ft);
    assert_eq!(parent.accumulation, fresh.accumulation);
    assert_eq!(parent.psqt, fresh.psqt);
}

#[test]
fn the_stack_allocates_one_slot_per_ply() {
    let mut stack = AccumulatorStack::new();
    assert_eq!(stack.len(), MAX_PLY + 1);
    assert!(!stack.get(0).computed[0], "fresh slots are not computed");
    stack.get_mut(3).computed[1] = true;
    assert!(stack.get(3).computed[1]);
    stack.reset();
    assert!(!stack.get(3).computed[1], "reset clears everything");
}

/// Openings, middlegames, tactics, promotions, en passant, castling and endgames.
const TEST_FENS: &[&str] = &[
    "rnbqkbnr/pppppppp/8/8/8/8/PPPPPPPP/RNBQKBNR w KQkq - 0 1",
    "r3k2r/p1ppqpb1/bn2pnp1/3PN3/1p2P3/2N2Q1p/PPPBBPPP/R3K2R w KQkq - 0 1",
    "r3k2r/p1ppqpb1/bn2pnp1/3PN3/1p2P3/2N2Q1p/PPPBBPPP/R3K2R b KQkq - 0 1",
    "8/2p5/3p4/KP5r/1R3p1k/8/4P1P1/8 w - - 0 1",
    "r1bqk2r/pppp1ppp/2n2n2/2b1p3/2B1P3/2NP1N2/PPP2PPP/R1BQK2R w KQkq - 0 1",
    "rnbq1k1r/pp1Pbppp/2p5/8/2B5/8/PPP1NnPP/RNBQK2R w KQ - 1 8",
    "r4rk1/1pp1qppp/p1np1n2/2b1p1B1/2B1P1b1/P1NP1N2/1PP1QPPP/R4RK1 w - - 0 10",
    "4k3/8/8/8/8/8/8/4K2R w K - 0 1",
    "4k3/8/8/8/8/8/8/R3K3 w Q - 0 1",
    "r3k2r/8/8/8/8/8/8/R3K2R w KQkq - 0 1",
    "r3k2r/8/8/8/8/8/8/R3K2R b KQkq - 0 1",
    "6k1/8/8/3pP3/8/8/8/6K1 w - d6 0 1",
    "6k1/8/8/3Pp3/8/8/8/6K1 w - e6 0 1",
    "4k3/8/8/8/8/8/8/3QK3 w - - 0 1",
    "4k3/8/8/8/8/8/8/3QK3 b - - 0 1",
    "4k2r/8/8/8/8/8/8/3RK3 w - - 0 1",
    "8/PPPk4/8/8/8/8/4Kppp/8 w - - 0 1",
    "8/PPPk4/8/8/8/8/4Kppp/8 b - - 0 1",
    "n1n5/PPPk4/8/8/8/8/4Kppp/5N1N b - - 0 1",
    "3k4/3p4/8/K1P4r/8/8/8/8 b - - 0 1",
    "4k3/8/8/8/8/8/8/4K3 w - - 0 1",
    "8/5ppp/8/8/8/8/PPP5/4K1k1 w - - 0 1",
    "rnbqkbnr/pp1ppppp/8/2p5/4P3/8/PPPP1PPP/RNBQKBNR w KQkq c6 0 2",
    "2rr3k/pp3pp1/1nnqbN1p/3pN3/2pP4/2P3Q1/PPB4P/R4RK1 w - - 0 1",
    "r1bqkb1r/pp1n1ppp/2p1pn2/3p4/2PP4/2N1PN2/PP3PPP/R1BQKB1R w KQkq - 0 1",
    "4k3/1p1p4/8/8/8/8/1P1P4/4K3 w - - 0 1",
    "8/1p1k4/8/8/8/8/1P6/1K6 w - - 0 1",
    "8/8/8/2k5/8/8/8/4KQ2 w - - 0 1",
    "4k2r/6K1/8/8/8/8/8/8 w k - 0 1",
    "2r3k1/pp3ppp/8/8/8/8/PPP3PP/2R3K1 w - - 0 1",
    "8/8/1k6/8/2p5/8/1K6/8 w - - 0 1",
    "r3k2r/8/8/4b3/8/8/8/R3K2R b KQkq - 0 1",
    "8/5k2/8/8/8/8/2K5/8 w - - 0 1",
    "5k2/8/8/8/8/8/8/4K2R w K - 0 1",
    "8/8/8/8/8/5k2/8/4K2R w K - 0 1",
    "r3k3/8/8/8/8/8/8/R3K2R b KQ - 0 1",
    "8/8/8/8/1k6/8/1K6/8 b - - 0 1",
    "2b1k3/pppp1ppp/8/8/8/8/PPPP1PPP/2B1K3 w - - 0 1",
];

/// What a network says of a position, and the score.
fn eval_of(net: &Network, fen: &str) -> (NetworkOutput, i32) {
    let pos = Position::from_fen(fen).unwrap();
    let (board, meta) = board_and_meta(&pos);
    let mut acc = Accumulator::new();
    acc.refresh(Color::White, &board, net.feature_transformer());
    acc.refresh(Color::Black, &board, net.feature_transformer());
    let out = net.evaluate(&acc, meta.stm, meta.bucket());
    let score = evaluate(net, &pos, &acc);
    assert_eq!(evaluate_checked(net, &pos, &acc), Some(score));
    (out, score)
}

#[test]
fn non_pawn_material_counts_both_colours() {
    // White knight and rook on rank 1, Black queen and king on rank 8.
    // Kings are worth zero, so the sum is the three real pieces.
    let pos = Position::from_fen("3q3k/8/8/8/8/8/8/1NR1K3 w - - 0 1").unwrap();
    let expect =
        PIECE_VALUE[ROOK as usize] + PIECE_VALUE[KNIGHT as usize] + PIECE_VALUE[QUEEN as usize];
    assert_eq!(non_pawn_material_of(pos.board()), expect);
    // A colour-relative count would see only the rook and the knight, so
    // the queen is exactly the piece that distinguishes the two readings.
    assert_eq!(PIECE_VALUE[QUEEN as usize], 2538);
}

#[test]
fn the_pawn_count_covers_both_colours() {
    // 3+3 pawns, so a colour-relative count would say 3 and this says 6.
    let pos = Position::from_fen("8/PPPk4/8/8/8/8/4Kppp/8 w - - 0 1").unwrap();
    let meta = EvalMeta::of_position(&pos);
    assert_eq!(meta.pawns, 6);
    assert_eq!(EvalMeta::of(&pos, &Board::from_position(&pos)), meta);
}

/// The two ways of reading the position facts must agree, or the score
/// would depend on which one the caller happened to use.
#[test]
fn both_readings_of_the_position_facts_agree() {
    for fen in TEST_FENS {
        let pos = Position::from_fen(fen).unwrap();
        let board = Board::from_position(&pos);
        assert_eq!(
            EvalMeta::of(&pos, &board),
            EvalMeta::of_position(&pos),
            "in {fen}"
        );
    }
}

#[test]
fn the_bucket_follows_the_piece_count() {
    let meta = |n: u32| EvalMeta {
        stm: Color::White,
        piece_count: n,
        pawns: 0,
        non_pawn_material: 0,
        rule50: 0,
    };
    assert_eq!(meta(1).bucket(), 0);
    assert_eq!(meta(4).bucket(), 0);
    assert_eq!(meta(5).bucket(), 1);
    assert_eq!(meta(32).bucket(), 7);
}

/// Reproduces the blend by hand, term by term, so the constants
/// (`18236`, `534`, `91000`, `199`) and the truncation of every division
/// are pinned rather than merely observed.
#[test]
fn blend_damps_complexity_and_the_rule50_counter() {
    let base = EvalMeta {
        stm: Color::White,
        piece_count: 32,
        pawns: 8,
        non_pawn_material: 6000,
        rule50: 0,
    };
    // Agreed terms: the output passes through (the material term only
    // scales the score, it does not add material).
    let agreed = NetworkOutput {
        psqt: 20,
        positional: 20,
    };
    // material = 534 * 8 pawns + 6000 non-pawn material = 10272
    // complexity = |20 - 20| = 0, so the complexity damping is a no-op
    // v = 40 + 40 * 10272 / 91000 = 40 + 4 (truncating) = 44
    let v = blend(agreed, &base);
    assert_eq!(v, 44, "the hand-computed blend");

    // Disagreeing terms pay the complexity tax. The magnitudes have to be
    // large enough for `nnue * complexity / 18236` to be non-zero.
    //
    // Both outputs below have the *same* raw total (psqt + positional =
    // 400), so the only difference between them is the complexity tax:
    // splitting the two terms gives complexity 400, which removes
    // 400 * 400 / 18236 = 8 from a net score of 400.
    let agreed_big = NetworkOutput {
        psqt: 200,
        positional: 200,
    };
    let split = NetworkOutput {
        psqt: 400,
        positional: 0,
    };
    let damped_by_complexity = 400 - 400 * 400 / 18236;
    assert_eq!(damped_by_complexity, 392);
    let s = blend(split, &base);
    assert_eq!(
        s,
        damped_by_complexity + damped_by_complexity * 10272 / 91000,
        "complexity damping"
    );
    assert_eq!(blend(agreed_big, &base), 400 + 400 * 10272 / 91000);
    assert!(
        s < blend(agreed_big, &base),
        "a less agreed output must score lower: {s} vs {}",
        blend(agreed_big, &base)
    );

    // A 50-move counter damps the score linearly and truncates.
    let after_100 = blend(
        agreed,
        &EvalMeta {
            rule50: 100,
            ..base
        },
    );
    assert_eq!(after_100, 44 - 44 * 100 / 199);
    assert!(after_100 < v, "rule50 must damp: {after_100} vs {v}");
    let after_99 = blend(agreed, &EvalMeta { rule50: 99, ..base });
    assert_eq!(after_99, 44 - 44 * 99 / 199);
    assert!(after_99 > after_100, "the damping is monotone in rule50");
}

#[test]
fn a_blend_turns_with_its_outputs_and_fades() {
    let base = EvalMeta {
        stm: Color::White,
        piece_count: 20,
        pawns: 11,
        non_pawn_material: 7777,
        rule50: 0,
    };
    for (psqt, positional) in [(0, 0), (733, -91), (-10000, 9999), (10000, 10000), (-5, 3)] {
        let out = NetworkOutput { psqt, positional };
        let turned = NetworkOutput { psqt: -psqt, positional: -positional };
        let mut before = blend(out, &base);
        for rule50 in 0..200 {
            let meta = EvalMeta { rule50, ..base };
            let v = blend(out, &meta);
            assert_eq!(blend(turned, &meta), -v);
            assert!(v.abs() <= before.abs() && v * before.signum() >= 0, "{v} after {before}");
            before = v;
        }
    }
    // Far beyond any game, the counter would turn the score round.
    let out = NetworkOutput { psqt: 500, positional: 500 };
    assert!(blend(out, &EvalMeta { rule50: 300, ..base }) < 0);
}

#[test]
fn evaluation_is_a_pure_function_of_the_position() {
    let net = test_net();
    for fen in [
        "rnbqkbnr/pppppppp/8/8/8/8/PPPPPPPP/RNBQKBNR w KQkq - 0 1",
        "r3k2r/p1ppqpb1/bn2pnp1/3PN3/1p2P3/2N2Q1p/PPPBBPPP/R3K2R w KQkq - 0 1",
    ] {
        let a = eval_of(&net, fen);
        let b = eval_of(&net, fen);
        assert_eq!(a, b, "evaluation must be deterministic in {fen}");
    }
}

/// The start position is balanced: the PSQT term must vanish and the
/// positional term must be small, from either side to move.
#[test]
fn the_start_position_is_symmetric() {
    let net = test_net();
    let (out, _) = eval_of(
        &net,
        "rnbqkbnr/pppppppp/8/8/8/8/PPPPPPPP/RNBQKBNR w KQkq - 0 1");
    assert_eq!(out.psqt, 0, "a symmetric position has no PSQT term");
    assert!(out.positional.abs() < 100, "got {}", out.positional);
}

fn mirror_fen(fen: &str) -> String {
    let mut parts = fen.split(' ');
    let board = parts.next().unwrap();
    let stm = parts.next().unwrap();
    let castling = parts.next().unwrap();
    let _ep = parts.next().unwrap();
    let halfmoves = parts.next().unwrap_or("0");
    let fullmoves = parts.next().unwrap_or("1");

    let ranks: Vec<String> = board.split('/').map(|r| r.to_string()).collect();
    let board: Vec<String> = ranks
        .iter()
        .rev()
        .map(|rank| {
            rank.chars()
                .map(|c| {
                    if c.is_ascii_uppercase() {
                        c.to_ascii_lowercase()
                    } else {
                        c.to_ascii_uppercase()
                    }
                })
                .collect::<String>()
        })
        .collect();

    let rights: String = castling
        .chars()
        .map(|c| match c {
            'K' => 'k',
            'Q' => 'q',
            'k' => 'K',
            'q' => 'Q',
            c => c,
        })
        .collect::<Vec<char>>()
        .iter()
        .collect();
    // Keep the canonical KQkq order the FEN grammar expects.
    let ordered: String = ['K', 'Q', 'k', 'q']
        .iter()
        .filter(|c| rights.contains(**c))
        .collect();
    let rights = if ordered.is_empty() {
        "-".into()
    } else {
        ordered
    };

    format!(
        "{} {} {} - {} {}",
        board.join("/"),
        if stm == "w" { "b" } else { "w" },
        rights,
        halfmoves,
        fullmoves
    )
}

#[test]
fn a_colour_flip_preserves_the_side_to_move_relative_score() {
    let net = test_net();
    for fen in TEST_FENS {
        let mirrored = mirror_fen(fen);
        let a = eval_of(&net, fen);
        let b = eval_of(&net, &mirrored);
        assert_eq!(a.0.psqt, b.0.psqt, "psqt in {fen} -> {mirrored}");
        assert_eq!(
            a.0.positional, b.0.positional,
            "positional in {fen} -> {mirrored}"
        );
        assert_eq!(a.1, b.1, "final score in {fen} -> {mirrored}");
    }
}

#[test]
fn swapping_the_side_to_move_negates_psqt_but_not_positional() {
    let net = test_net();
    let mut saw_a_difference = false;
    for fen in TEST_FENS {
        let flipped = flip_side_to_move(fen);
        let a = eval_of(&net, fen);
        let b = eval_of(&net, &flipped);
        assert_eq!(
            a.0.psqt, -b.0.psqt,
            "psqt is stm-relative in {fen} / {flipped}"
        );
        if a.0.positional != b.0.positional {
            saw_a_difference = true;
        }
    }
    assert!(
        saw_a_difference,
        "the two perspectives should not be weight-identical"
    );
}

/// Swaps the side-to-move field of a FEN, keeping everything else.
///
/// The en passant square is dropped: an ep square that is legal for White to
/// move on is by definition not legal for Black to move on, so keeping it
/// would produce a FEN `Position::from_fen` rejects.
fn flip_side_to_move(fen: &str) -> String {
    let mut parts = fen.split(' ').map(str::to_owned).collect::<Vec<_>>();
    parts[1] = if parts[1] == "w" {
        "b".into()
    } else {
        "w".into()
    };
    parts[3] = "-".into();
    parts.join(" ")
}

/// The accumulator the evaluation reads must be the one a full refresh
/// produces — a cheap end-to-end guard on the whole chain.
#[test]
fn evaluation_uses_the_refreshed_accumulator() {
    let net = test_net();
    let pos = Position::from_fen(
        "r3k2r/p1ppqpb1/bn2pnp1/3PN3/1p2P3/2N2Q1p/PPPBBPPP/R3K2R w KQkq - 0 1",
    )
    .unwrap();
    let board = Board::from_position(&pos);
    let mut acc = Accumulator::new();
    for p in [Color::White, Color::Black] {
        assert!(!acc.computed[p.idx()]);
        acc.refresh(p, &board, net.feature_transformer());
        assert!(acc.computed[p.idx()]);
    }
    // A non-zero accumulator is a prerequisite for a meaningful score.
    assert!(acc.accumulation[Color::White.idx()].iter().any(|&v| v != 0));
    let score = evaluate(&net, &pos, &acc);
    assert!(score.abs() < 3000, "implausible score {score}");
}

/// Packs integers with seven bits a byte.
fn packed(values: &[i32]) -> Vec<u8> {
    let mut payload = Vec::new();
    for &v in values {
        let mut value = v;
        loop {
            let byte = (value & 0x7f) as u8;
            value >>= 7;
            let last = if byte & 0x40 == 0 { value == 0 } else { value == -1 };
            payload.push(if last { byte } else { byte | 0x80 });
            if last {
                break;
            }
        }
    }
    let mut out = LEB128_MAGIC.to_vec();
    out.extend_from_slice(&(payload.len() as u32).to_le_bytes());
    out.extend_from_slice(&payload);
    out
}

/// A whole network file with one weight other than zero in each block.
fn network_file() -> Vec<u8> {
    let with = |n: usize, at: usize, v: i32| {
        let mut block = vec![0; n];
        block[at] = v;
        block
    };
    let mut bytes = Vec::new();
    bytes.extend_from_slice(&VERSION.to_le_bytes());
    bytes.extend_from_slice(&NETWORK_HASH.to_le_bytes());
    bytes.extend_from_slice(&4u32.to_le_bytes());
    bytes.extend_from_slice(b"test");
    bytes.extend_from_slice(&FEATURE_TRANSFORMER_HASH.to_le_bytes());
    bytes.extend_from_slice(&packed(&with(L1, 1, -300)));
    let mut threats = vec![0u8; 59808 * L1];
    threats[2] = 0xfb;
    bytes.extend_from_slice(&threats);
    bytes.extend_from_slice(&packed(&with(59808 * 8, 3, 70)));
    let mut pairs = vec![0u8; 4560 * L1];
    pairs[4] = 9;
    bytes.extend_from_slice(&pairs);
    bytes.extend_from_slice(&packed(&with(4560 * 8, 5, -7)));
    bytes.extend_from_slice(&packed(&with(PSQ_DIMENSIONS * L1, L1 + 6, 1000)));
    bytes.extend_from_slice(&packed(&with(PSQ_DIMENSIONS * 8, 7, 100_000)));
    for _ in 0..8 {
        bytes.extend_from_slice(&LAYER_STACK_HASH.to_le_bytes());
        bytes.extend_from_slice(&[0; 4 * 32 + 32 * 1024]);
        bytes.extend_from_slice(&[0; 4 * 32 + 32 * 64]);
        bytes.extend_from_slice(&[0; 4 + 128]);
    }
    bytes
}

#[test]
fn embedded_network_loads_successfully() {
    let bytes = network_file();
    let net = load_embedded_network(&bytes).expect("embedded network must load");
    assert_eq!(net.hash(), NETWORK_HASH);
    let ft = net.feature_transformer();
    assert_eq!(ft.bias_row()[1], -300);
    assert_eq!(ft.other_weight_row(0)[2], -5);
    assert_eq!(ft.other_psqt_row(0)[3], 70);
    assert_eq!(ft.other_weight_row(59808)[4], 9);
    assert_eq!(ft.other_psqt_row(59808)[5], -7);
    assert_eq!(ft.weight_row(1)[6], 1000);
    assert_eq!(ft.psqt_weight_row(0)[7], 100_000);
}

#[test]
fn embedded_network_has_expected_size() {
    assert_eq!(embedded_network_size(&vec![0u8; 98_511_183]), 98_511_183);
}

#[test]
fn bytes_that_are_no_network_do_not_load() {
    assert!(load_embedded_network(&[]).is_none());
    assert!(load_embedded_network(&VERSION.to_le_bytes()).is_none());
}

#[test]
fn the_network_path_prefers_the_file_as_given() {
    assert_eq!(net_base(""), "nnue/nn-1a298aa575a0.nnue");
    assert_eq!(net_base("x.nnue"), "x.nnue");
    let beside = || Some(String::from("/opt/x.nnue"));
    assert_eq!(resolve_net_path("x.nnue", true, beside()), "x.nnue");
    assert_eq!(resolve_net_path("x.nnue", false, beside()), "/opt/x.nnue");
    assert_eq!(resolve_net_path("x.nnue", false, None), "x.nnue");
    assert_eq!(
        resolve_net_path("", false, None),
        "nnue/nn-1a298aa575a0.nnue"
    );
}

#[test]
fn a_counter_beyond_all_games_has_no_score() {
    let net = test_net();
    let score = |fen: &str| {
        let pos = Position::from_fen(fen).unwrap();
        let (board, _) = board_and_meta(&pos);
        let mut acc = Accumulator::new();
        acc.refresh(Color::White, &board, net.feature_transformer());
        acc.refresh(Color::Black, &board, net.feature_transformer());
        evaluate_checked(&net, &pos, &acc)
    };
    let middlegame = "r3k2r/p1ppqpb1/bn2pnp1/3PN3/1p2P3/2N2Q1p/PPPBBPPP/R3K2R w KQkq -";
    assert!(score(&format!("{middlegame} 0 1")).is_some_and(|v| v != 0));
    assert!(score(&format!("{middlegame} 99 90")).is_some());
    assert_eq!(score(&format!("{middlegame} 2147483647 90")), None);
}
