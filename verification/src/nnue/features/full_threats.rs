//! Every attack of a piece on a piece.
//!
//! The features number all attacks that the geometry allows, block by block:
//! one block for each attacker, within it one part for each kind of target,
//! within that one place for each pair of squares. Pawns attack knights and
//! rooks only; of the two attacks between pieces of one type only one is kept;
//! whatever is left out gets an index of `DIMENSIONS` or more.
use vstd::prelude::*;
use crate::bits;
use crate::nnue::attacks::{
    attacks_bb, pawn_attacks, pop_lsb, pseudo_attacks, shift_north_east, shift_north_west,
    shift_south_east, shift_south_west,
};
use crate::nnue::board::Board;
use crate::nnue::board;
use crate::nnue::features;
use crate::nnue::features::reach;
use crate::nnue::geometry;
use crate::nnue::types::{
    make_piece, type_of, Bitboard, Color, DirtyThreat, DirtyThreats, ValueList, BISHOP, KING, KNIGHT,
    PAWN, QUEEN, ROOK,
};
use crate::nnue::types;

verus! {

/// What a network file names this set by.
pub const HASH_VALUE: u32 = 0x2e6b_9d04;

/// The number of features.
pub const DIMENSIONS: usize = 59808;

pub type IndexList = ValueList<u16, 256>;

/// How many kinds of target a piece type keeps, both colours counted.
pub open spec fn targets_of(pt: int) -> int {
    if pt == PAWN {
        4
    } else if pt == KNIGHT || pt == QUEEN {
        10
    } else if pt == BISHOP || pt == ROOK {
        8
    } else {
        0
    }
}

/// How many kinds of target a piece keeps, both colours counted.
pub fn num_valid_targets(pc: u8) -> (r: u32)
    ensures
        r == targets_of(pc as int % 8),
        r <= 10,
{
    let pt: u8 = type_of(pc);
    if pt == PAWN {
        4
    } else if pt == KNIGHT || pt == QUEEN {
        10
    } else if pt == BISHOP || pt == ROOK {
        8
    } else {
        0
    }
}

/// The squares that the piece attacks from `from` and that have a place of
/// their own: none for pawns on the first and the last rank.
pub open spec fn span(pc: int, from: int) -> nat {
    if pc % 8 == PAWN && !(8 <= from <= 55) {
        0
    } else {
        reach::aim(pc, from).len()
    }
}

/// The places of the attacks from squares below `from`.
pub open spec fn offset(pc: int, from: int) -> nat
    decreases from,
{
    if from <= 0 {
        0
    } else {
        offset(pc, from - 1) + span(pc, from - 1)
    }
}

/// The places of all attacks of a piece type on one kind of target.
pub open spec fn size_of(pt: int) -> int {
    if pt == PAWN {
        84
    } else if pt == KNIGHT {
        336
    } else if pt == BISHOP {
        560
    } else if pt == ROOK {
        896
    } else if pt == QUEEN {
        1456
    } else if pt == KING {
        420
    } else {
        0
    }
}

/// Where the block of a piece begins.
pub open spec fn first(pc: int) -> int {
    let pt = pc % 8;
    29904 * (pc / 8) + (if pt == PAWN {
        0
    } else if pt == KNIGHT {
        336
    } else if pt == BISHOP {
        3696
    } else if pt == ROOK {
        8176
    } else if pt == QUEEN {
        15344
    } else {
        29904int
    })
}

/// The size of one part of a piece's block and where the block begins.
pub fn block_of(pc: u8) -> (r: (u32, u32))
    requires
        types::is_piece(pc as int),
    ensures
        r.0 == size_of(pc as int % 8),
        r.1 == first(pc as int),
        r.0 <= 1456,
        r.1 <= 59808,
{
    let pt: u8 = pc % 8;
    let base: u32 = if pc < 8 {
        0
    } else {
        29904
    };
    if pt == PAWN {
        (84, base)
    } else if pt == KNIGHT {
        (336, base + 336)
    } else if pt == BISHOP {
        (560, base + 3696)
    } else if pt == ROOK {
        (896, base + 8176)
    } else if pt == QUEEN {
        (1456, base + 15344)
    } else {
        (420, base + 29904)
    }
}

/// Which part of an attacker's block a target has.
pub open spec fn slot(pt: int, attacked: int) -> int {
    (if attacked / 8 == 0 {
        0
    } else {
        targets_of(pt) / 2
    }) + (if pt == PAWN {
        if attacked % 8 == KNIGHT {
            0int
        } else {
            1
        }
    } else {
        attacked % 8 - 1
    })
}

/// Where the places of an attacker and a target begin, or `DIMENSIONS` where
/// the set leaves the pair out: attacks that do not count, and between pieces
/// of one type those towards the higher square.
pub open spec fn pair_first(attacker: int, attacked: int, upward: bool) -> int {
    let pt = attacker % 8;
    let tt = attacked % 8;
    if !types::is_piece(attacker) || !types::is_piece(attacked) {
        0
    } else if !board::may_threaten(pt, tt) || (upward && pt == tt) {
        DIMENSIONS as int
    } else {
        first(attacker) + slot(pt, attacked) * size_of(pt)
    }
}

/// Where the places of an attacker and a target begin.
pub fn pair_base(attacker: u8, attacked: u8, upward: bool) -> (r: u32)
    requires
        attacker < 16,
        attacked < 16,
    ensures
        r == pair_first(attacker as int, attacked as int, upward),
        r <= DIMENSIONS,
{
    let pt: u8 = attacker % 8;
    let tt: u8 = attacked % 8;
    if pt == 0 || pt == 7 || tt == 0 || tt == 7 {
        return 0;
    }
    let counts: bool = if pt == PAWN {
        tt == KNIGHT || tt == ROOK
    } else if pt == BISHOP || pt == ROOK {
        tt <= 4
    } else if pt == KNIGHT || pt == QUEEN {
        tt <= 5
    } else {
        false
    };
    if !counts || (upward && pt == tt) {
        return DIMENSIONS as u32;
    }
    let (size, base) = block_of(attacker);
    let kind: u32 = if pt == PAWN {
        if tt == KNIGHT {
            0
        } else {
            1
        }
    } else {
        tt as u32 - 1
    };
    let side: u32 = if attacked < 8 {
        0
    } else {
        num_valid_targets(attacker) / 2
    };
    let part: u32 = side + kind;
    proof {
        assert(part < targets_of(pt as int));
        assert(part * size <= 9 * 1456) by (nonlinear_arith)
            requires
                part <= 9,
                size <= 1456,
        ;
        lemma_parts_fit(attacker as int, part as int);
    }
    base + part * size
}

/// Every part of every block lies within the set.
proof fn lemma_parts_fit(pc: int, part: int)
    requires
        types::is_piece(pc),
        0 <= part < targets_of(pc % 8),
    ensures
        first(pc) + part * size_of(pc % 8) + size_of(pc % 8) <= DIMENSIONS,
        0 <= first(pc),
{
    let pt = pc % 8;
    assert(part * size_of(pt) <= (targets_of(pt) - 1) * size_of(pt)) by (nonlinear_arith)
        requires
            0 <= part <= targets_of(pt) - 1,
            0 <= size_of(pt),
    ;
    if pt == PAWN {
        assert(3 * 84 == 252);
    } else if pt == KNIGHT {
        assert(9 * 336 == 3024);
    }
}

/// The place of an attack on the oriented board.
pub open spec fn place(attacker: int, from: int, to: int, attacked: int) -> int {
    pair_first(attacker, attacked, from < to) + offset(attacker, from) + reach::aim_below(
        attacker,
        from,
        to,
    ).len()
}

/// The board is mirrored where the king stands on files e to h.
pub open spec fn mirrors(ksq: int) -> bool {
    ksq % 8 >= 4
}

/// What the squares are combined with: 0 where the king stands on files a to
/// d, 7 on files e to h.
pub fn orient_tbl(ksq: usize) -> (r: usize)
    ensures
        r == (if mirrors(ksq as int) {
            7int
        } else {
            0
        }),
{
    if ksq % 8 < 4 {
        0
    } else {
        7
    }
}

/// A piece as `perspective` sees it: its own pieces are White.
pub open spec fn seen_piece(perspective: Color, pc: int) -> int {
    if perspective == Color::Black {
        features::recolored(pc)
    } else {
        pc
    }
}

/// A square as `perspective` sees it with its king on `ksq`.
pub open spec fn seen_square(perspective: Color, s: int, ksq: int) -> int {
    features::oriented(s, mirrors(ksq), perspective == Color::Black)
}

/// The feature of an attack, as `perspective` sees it with its king on `ksq`.
pub open spec fn index(
    perspective: Color,
    attacker: int,
    from: int,
    to: int,
    attacked: int,
    ksq: int,
) -> int {
    place(
        seen_piece(perspective, attacker),
        seen_square(perspective, from, ksq),
        seen_square(perspective, to, ksq),
        seen_piece(perspective, attacked),
    )
}

fn offset_of(pc: u8, from: usize) -> (r: u32)
    requires
        pc < 16,
        from < 64,
    ensures
        r == offset(pc as int, from as int),
        r <= 28 * 64,
{
    let pawn: bool = pc % 8 == PAWN;
    let mut n: u32 = 0;
    let mut q: usize = 0;
    while q < from
        invariant
            q <= from,
            from < 64,
            pc < 16,
            pawn == (pc % 8 == PAWN),
            n == offset(pc as int, q as int),
            n <= 28 * q,
        decreases from - q,
    {
        if !pawn || (q >= 8 && q <= 55) {
            n = n + reach::aim_count(pc, q);
        }
        q = q + 1;
    }
    n
}

/// The word of the squares below `to`.
proof fn lemma_below(to: u64, t: int)
    requires
        to < 64,
    ensures
        bits::mem(((1u64 << to) - 1) as u64, t) == (0 <= t < to),
        1u64 << to >= 1,
{
    let i = t as u64;
    assert(to < 64 ==> 1u64 << to >= 1 && (i < 64 ==> (((((1u64 << to) - 1) as u64) >> i) & 1u64
        == 1u64 <==> i < to))) by (bit_vector);
}

fn rank_of_target(pc: u8, from: usize, to: usize) -> (r: u32)
    requires
        pc < 16,
        from < 64,
        to < 64,
    ensures
        r == reach::aim_below(pc as int, from as int, to as int).len(),
        r <= 64,
{
    let pt: u8 = type_of(pc);
    let all: Bitboard = if pt == PAWN {
        pawn_attacks(
            if pc < 8 {
                Color::White
            } else {
                Color::Black
            },
            from,
        )
    } else {
        pseudo_attacks(pt, from)
    };
    proof {
        lemma_below(to as u64, 0);
    }
    let below: Bitboard = (1u64 << (to as u64)) - 1;
    let hit: Bitboard = below & all;
    proof {
        bits::lemma_ones_set(hit);
        assert forall|t: int| bits::squares(hit).contains(t) == reach::aim_below(
            pc as int,
            from as int,
            to as int,
        ).contains(t) by {
            bits::mem_and(below, all, t);
            lemma_below(to as u64, t);
            if pt == PAWN {
                assert(pc as int / 8 == 0 || pc as int / 8 == 1);
            }
        }
        assert(bits::squares(hit) =~= reach::aim_below(pc as int, from as int, to as int));
    }
    bits::count(hit)
}

/// The feature of the piece `attacker` on `from` attacking `attacked` on `to`,
/// as `perspective` sees it with its king on `ksq`; `DIMENSIONS` or more where
/// the set leaves it out.
pub fn make_index(
    perspective: Color,
    attacker: u8,
    from: usize,
    to: usize,
    attacked: u8,
    ksq: usize,
) -> (r: u16)
    requires
        attacker < 16,
        attacked < 16,
        from < 64,
        to < 64,
        ksq < 64,
    ensures
        r == index(
            perspective,
            attacker as int,
            from as int,
            to as int,
            attacked as int,
            ksq as int,
        ),
{
    let turn: bool = match perspective {
        Color::White => false,
        Color::Black => true,
    };
    let mirror: bool = ksq % 8 >= 4;
    let f: usize = features::orient(from, mirror, turn);
    let t: usize = features::orient(to, mirror, turn);
    let a: u8 = features::recolor(attacker, turn);
    let d: u8 = features::recolor(attacked, turn);
    let n: u32 = pair_base(a, d, f < t) + offset_of(a, f) + rank_of_target(a, f, t);
    n as u16
}

// --- active features ------------------------------------------------------------

/// The attack between two squares of a board.
pub open spec fn threat_at(sq: Seq<u8>, a: int, b: int) -> types::Threat {
    types::Threat {
        pc: sq[a] as int,
        threatened_pc: sq[b] as int,
        pc_sq: a,
        threatened_sq: b,
    }
}

/// The feature of an attack, or nothing where the set leaves it out.
pub open spec fn feature(perspective: Color, ksq: int, t: types::Threat) -> Seq<u16> {
    let i = index(perspective, t.pc, t.pc_sq, t.threatened_sq, t.threatened_pc, ksq);
    if i < DIMENSIONS {
        seq![i as u16]
    } else {
        Seq::empty()
    }
}

/// The features of attacks, in their order.
pub open spec fn kept(perspective: Color, ksq: int, ts: Seq<types::Threat>) -> Seq<u16>
    decreases ts.len(),
{
    if ts.len() == 0 {
        Seq::empty()
    } else {
        kept(perspective, ksq, ts.drop_last()) + feature(perspective, ksq, ts.last())
    }
}

/// The features of attacks one after the other are those of the first and
/// then those of the second.
pub proof fn lemma_kept_add(
    perspective: Color,
    ksq: int,
    a: Seq<types::Threat>,
    b: Seq<types::Threat>,
)
    ensures
        kept(perspective, ksq, a + b) == kept(perspective, ksq, a) + kept(perspective, ksq, b),
    decreases b.len(),
{
    if b.len() == 0 {
        assert(a + b =~= a);
        assert(kept(perspective, ksq, a) + Seq::<u16>::empty() =~= kept(perspective, ksq, a));
    } else {
        lemma_kept_add(perspective, ksq, a, b.drop_last());
        assert((a + b).drop_last() =~= a + b.drop_last());
        assert((a + b).last() == b.last());
        assert(kept(perspective, ksq, a + b) =~= kept(perspective, ksq, a) + kept(
            perspective,
            ksq,
            b,
        ));
    }
}

/// The features of one attack.
pub proof fn lemma_kept_one(perspective: Color, ksq: int, t: types::Threat)
    ensures
        kept(perspective, ksq, seq![t]) == feature(perspective, ksq, t),
{
    assert(seq![t].drop_last() =~= Seq::empty());
    reveal_with_fuel(kept, 2);
    assert(kept(perspective, ksq, seq![t]) =~= feature(perspective, ksq, t));
}

/// The squares that pawns of the colour `c` attack by moving `step` squares
/// and that hold a knight or a rook.
pub open spec fn pawn_targets(sq: Seq<u8>, c: int, step: int) -> spec_fn(int) -> bool {
    |t: int|
        geometry::pawn_step(c, t - step, t) && sq[t - step] == 8 * c + PAWN && board::may_threaten(
            PAWN as int,
            sq[t] as int % 8,
        )
}

pub open spec fn pawn_rec(sq: Seq<u8>, step: int) -> spec_fn(int) -> Seq<types::Threat> {
    |t: int| seq![threat_at(sq, t - step, t)]
}

/// The attacks of pawns in one direction.
pub open spec fn pawn_threats(sq: Seq<u8>, c: int, step: int) -> Seq<types::Threat> {
    bits::flat(board::word_of(pawn_targets(sq, c, step)), pawn_rec(sq, step))
}

/// The squares of a piece.
pub open spec fn holding(sq: Seq<u8>, pc: int) -> spec_fn(int) -> bool {
    |s: int| sq[s] == pc
}

pub open spec fn hit_rec(sq: Seq<u8>, from: int) -> spec_fn(int) -> Seq<types::Threat> {
    |t: int| seq![threat_at(sq, from, t)]
}

/// The attacks of the piece `pc` on `from`.
pub open spec fn hit_threats(sq: Seq<u8>, pc: int, from: int) -> Seq<types::Threat> {
    bits::flat(board::word_of(board::attacks_at(sq, pc, from)), hit_rec(sq, from))
}

pub open spec fn piece_rec(sq: Seq<u8>, pc: int) -> spec_fn(int) -> Seq<types::Threat> {
    |from: int| hit_threats(sq, pc, from)
}

/// The attacks of all pieces `pc`.
pub open spec fn piece_threats(sq: Seq<u8>, pc: int) -> Seq<types::Threat> {
    bits::flat(board::word_of(holding(sq, pc)), piece_rec(sq, pc))
}

/// The attacks of all pawns, by direction.
pub open spec fn all_pawn_threats(sq: Seq<u8>) -> Seq<types::Threat> {
    pawn_threats(sq, 0, 9) + pawn_threats(sq, 0, 7) + pawn_threats(sq, 1, -9) + pawn_threats(
        sq,
        1,
        -7,
    )
}

/// The attacks of the knights, bishops, rooks and queens of a colour.
pub open spec fn color_threats(sq: Seq<u8>, c: int) -> Seq<types::Threat> {
    piece_threats(sq, 8 * c + 2) + piece_threats(sq, 8 * c + 3) + piece_threats(sq, 8 * c + 4)
        + piece_threats(sq, 8 * c + 5)
}

/// All attacks on a board: those of the pawns, then those of the other pieces
/// of White and of Black.
pub open spec fn active_threats(sq: Seq<u8>) -> Seq<types::Threat> {
    all_pawn_threats(sq) + color_threats(sq, 0) + color_threats(sq, 1)
}

/// Appends the features of the attacks of pawns in one direction.
fn process_pawn_attacks(
    perspective: Color,
    board: &Board,
    ksq: usize,
    c: Color,
    east: bool,
    active: &mut IndexList,
)
    requires
        board.wf(),
        ksq < 64,
        old(active)@.len() <= 256,
    ensures
        final(active)@ == bits::capped(
            old(active)@ + kept(
                perspective,
                ksq as int,
                pawn_threats(board.sq(), c.index(), pawn_stride(c, east)),
            ),
            256,
        ),
        final(active)@.len() <= 256,
{
    let pawns: Bitboard = board.pawns(c);
    let targets: Bitboard = board.pieces_of_many(KNIGHT, ROOK);
    let stride: i32 = match c {
        Color::White => if east {
            9
        } else {
            7
        },
        Color::Black => if east {
            -7
        } else {
            -9
        },
    };
    let shifted: Bitboard = match c {
        Color::White => if east {
            shift_north_east(pawns)
        } else {
            shift_north_west(pawns)
        },
        Color::Black => if east {
            shift_south_east(pawns)
        } else {
            shift_south_west(pawns)
        },
    };
    let all: Bitboard = shifted & targets;
    let ghost rec = pawn_rec(board.sq(), stride as int);
    let ghost start = active@;
    let attacker: u8 = make_piece(c.idx(), PAWN);
    proof {
        board.lemma_valid();
        assert forall|t: int| 0 <= t < 64 implies #[trigger] bits::mem(all, t) == pawn_targets(
            board.sq(),
            c.index(),
            stride as int,
        )(t) by {
            bits::mem_and(shifted, targets, t);
        }
        board::lemma_word_of(all, pawn_targets(board.sq(), c.index(), stride as int));
    }
    let mut b: Bitboard = all;
    while b != 0
        invariant
            board.wf(),
            board::valid_squares(board.sq()),
            ksq < 64,
            stride == pawn_stride(c, east),
            attacker == 8 * c.index() + PAWN,
            rec == pawn_rec(board.sq(), stride as int),
            active@.len() <= 256,
            forall|t: int| #[trigger]
                bits::mem(b, t) ==> pawn_targets(board.sq(), c.index(), stride as int)(t),
            bits::capped(
                active@ + kept(perspective, ksq as int, bits::flat(b, rec)),
                256,
            ) == bits::capped(start + kept(perspective, ksq as int, bits::flat(all, rec)), 256),
        decreases b,
    {
        let ghost b0 = b;
        let ghost l0 = active@;
        let to: usize = pop_lsb(&mut b);
        assert(pawn_targets(board.sq(), c.index(), stride as int)(to as int));
        let from: usize = (to as i32 - stride) as usize;
        let attacked: u8 = board.piece_on(to);
        active.push_if_lt(make_index(perspective, attacker, from, to, attacked, ksq), DIMENSIONS);
        proof {
            let t = threat_at(board.sq(), from as int, to as int);
            lemma_step(perspective, ksq as int, l0, active@, t, bits::flat(b, rec));
            assert(rec(to as int) =~= seq![t]);
            assert(bits::flat(b0, rec) =~= seq![t] + bits::flat(b, rec));
        }
    }
    assert(active@ + kept(perspective, ksq as int, bits::flat(0u64, rec)) =~= active@);
}

/// How far a capturing pawn moves.
pub open spec fn pawn_stride(c: Color, east: bool) -> int {
    match c {
        Color::White => if east {
            9
        } else {
            7
        },
        Color::Black => if east {
            -7
        } else {
            -9
        },
    }
}

/// Pushing the feature of the next attack keeps what the whole list comes to.
proof fn lemma_step(
    perspective: Color,
    ksq: int,
    before: Seq<u16>,
    after: Seq<u16>,
    t: types::Threat,
    rest: Seq<types::Threat>,
)
    requires
        before.len() <= 256,
        after == (if index(perspective, t.pc, t.pc_sq, t.threatened_sq, t.threatened_pc, ksq)
            < DIMENSIONS {
            bits::capped(
                before.push(
                    index(
                        perspective,
                        t.pc,
                        t.pc_sq,
                        t.threatened_sq,
                        t.threatened_pc,
                        ksq,
                    ) as u16,
                ),
                256,
            )
        } else {
            before
        }),
    ensures
        bits::capped(after + kept(perspective, ksq, rest), 256) == bits::capped(
            before + kept(perspective, ksq, seq![t] + rest),
            256,
        ),
        after.len() <= 256,
{
    let f = feature(perspective, ksq, t);
    lemma_kept_one(perspective, ksq, t);
    lemma_kept_add(perspective, ksq, seq![t], rest);
    assert(after =~= bits::capped(before + f, 256));
    bits::lemma_capped(before + f, kept(perspective, ksq, rest), 256);
    assert((before + f) + kept(perspective, ksq, rest) =~= before + (f + kept(
        perspective,
        ksq,
        rest,
    )));
}

/// Appends the features of the attacks of the piece on `from`.
fn append_hits(
    perspective: Color,
    board: &Board,
    ksq: usize,
    attacker: u8,
    from: usize,
    hit: Bitboard,
    active: &mut IndexList,
)
    requires
        board.wf(),
        ksq < 64,
        from < 64,
        attacker < 16,
        board.sq()[from as int] == attacker,
        old(active)@.len() <= 256,
        forall|t: int| #[trigger]
            bits::mem(hit, t) == board::attacks_at(board.sq(), attacker as int, from as int)(t),
    ensures
        final(active)@ == bits::capped(
            old(active)@ + kept(
                perspective,
                ksq as int,
                hit_threats(board.sq(), attacker as int, from as int),
            ),
            256,
        ),
        final(active)@.len() <= 256,
{
    let ghost rec = hit_rec(board.sq(), from as int);
    let ghost start = active@;
    proof {
        board.lemma_valid();
        board::lemma_word_of(hit, board::attacks_at(board.sq(), attacker as int, from as int));
    }
    let mut b: Bitboard = hit;
    while b != 0
        invariant
            board.wf(),
            board::valid_squares(board.sq()),
            ksq < 64,
            from < 64,
            attacker < 16,
            board.sq()[from as int] == attacker,
            rec == hit_rec(board.sq(), from as int),
            active@.len() <= 256,
            bits::capped(
                active@ + kept(perspective, ksq as int, bits::flat(b, rec)),
                256,
            ) == bits::capped(start + kept(perspective, ksq as int, bits::flat(hit, rec)), 256),
        decreases b,
    {
        let ghost b0 = b;
        let ghost l0 = active@;
        let to: usize = pop_lsb(&mut b);
        let attacked: u8 = board.piece_on(to);
        active.push_if_lt(make_index(perspective, attacker, from, to, attacked, ksq), DIMENSIONS);
        proof {
            let t = threat_at(board.sq(), from as int, to as int);
            lemma_step(perspective, ksq as int, l0, active@, t, bits::flat(b, rec));
            assert(rec(to as int) =~= seq![t]);
            assert(bits::flat(b0, rec) =~= seq![t] + bits::flat(b, rec));
        }
    }
    assert(active@ + kept(perspective, ksq as int, bits::flat(0u64, rec)) =~= active@);
}

/// Appends the features of the attacks of all pieces of one type and colour.
fn append_piece(
    perspective: Color,
    board: &Board,
    ksq: usize,
    c: Color,
    pt: u8,
    active: &mut IndexList,
)
    requires
        board.wf(),
        ksq < 64,
        2 <= pt <= 5,
        old(active)@.len() <= 256,
    ensures
        final(active)@ == bits::capped(
            old(active)@ + kept(
                perspective,
                ksq as int,
                piece_threats(board.sq(), 8 * c.index() + pt),
            ),
            256,
        ),
        final(active)@.len() <= 256,
{
    let attacker: u8 = make_piece(c.idx(), pt);
    let occupied: Bitboard = board.pieces();
    let of_type: Bitboard = board.pieces_of(pt);
    let of_color: Bitboard = board.pieces_of_color(c);
    let all: Bitboard = of_type & of_color;
    let targets: Bitboard = if pt == KNIGHT || pt == QUEEN {
        board.pieces_of_five(PAWN, KNIGHT, BISHOP, ROOK, QUEEN)
    } else {
        board.pieces_of_four(PAWN, KNIGHT, BISHOP, ROOK)
    };
    let ghost rec = piece_rec(board.sq(), attacker as int);
    let ghost start = active@;
    proof {
        board.lemma_valid();
        assert forall|s: int| 0 <= s < 64 implies #[trigger] bits::mem(all, s) == holding(
            board.sq(),
            attacker as int,
        )(s) by {
            bits::mem_and(of_type, of_color, s);
        }
        board::lemma_word_of(all, holding(board.sq(), attacker as int));
    }
    let mut b: Bitboard = all;
    while b != 0
        invariant
            board.wf(),
            board::valid_squares(board.sq()),
            ksq < 64,
            2 <= pt <= 5,
            attacker == 8 * c.index() + pt,
            rec == piece_rec(board.sq(), attacker as int),
            active@.len() <= 256,
            forall|s: int| #[trigger] bits::mem(b, s) ==> board.sq()[s] == attacker,
            forall|s: int| #[trigger]
                bits::mem(occupied, s) == (0 <= s < 64 && board.sq()[s] != 0),
            forall|s: int| #[trigger]
                bits::mem(targets, s) == (0 <= s < 64 && board::may_threaten(
                    pt as int,
                    board.sq()[s] as int % 8,
                )),
            bits::capped(
                active@ + kept(perspective, ksq as int, bits::flat(b, rec)),
                256,
            ) == bits::capped(start + kept(perspective, ksq as int, bits::flat(all, rec)), 256),
        decreases b,
    {
        let ghost b0 = b;
        let ghost l0 = active@;
        let from: usize = pop_lsb(&mut b);
        let reached: Bitboard = attacks_bb(pt, from, occupied);
        let hit: Bitboard = reached & targets;
        proof {
            assert forall|t: int| #[trigger] bits::mem(hit, t) == board::attacks_at(
                board.sq(),
                attacker as int,
                from as int,
            )(t) by {
                bits::mem_and(reached, targets, t);
                board::lemma_open_line_word(board.sq(), occupied, from as int, t);
                assert((8 * c.index() + pt) % 8 == pt);
            }
        }
        append_hits(perspective, board, ksq, attacker, from, hit, active);
        proof {
            let here = hit_threats(board.sq(), attacker as int, from as int);
            let k = kept(perspective, ksq as int, here);
            let r = kept(perspective, ksq as int, bits::flat(b, rec));
            assert(rec(from as int) =~= here);
            assert(bits::flat(b0, rec) =~= here + bits::flat(b, rec));
            lemma_kept_add(perspective, ksq as int, here, bits::flat(b, rec));
            bits::lemma_capped(l0 + k, r, 256);
            assert((l0 + k) + r =~= l0 + (k + r));
        }
    }
    assert(active@ + kept(perspective, ksq as int, bits::flat(0u64, rec)) =~= active@);
}

/// Appends the features of the attacks of all pawns.
fn append_pawns(perspective: Color, board: &Board, ksq: usize, active: &mut IndexList)
    requires
        board.wf(),
        ksq < 64,
        old(active)@.len() <= 256,
    ensures
        final(active)@ == bits::capped(
            old(active)@ + kept(perspective, ksq as int, all_pawn_threats(board.sq())),
            256,
        ),
        final(active)@.len() <= 256,
{
    let ghost k = ksq as int;
    let ghost l0 = active@;
    let ghost a1 = pawn_threats(board.sq(), 0, 9);
    let ghost a2 = pawn_threats(board.sq(), 0, 7);
    let ghost a3 = pawn_threats(board.sq(), 1, -9);
    let ghost a4 = pawn_threats(board.sq(), 1, -7);
    process_pawn_attacks(perspective, board, ksq, Color::White, true, active);
    process_pawn_attacks(perspective, board, ksq, Color::White, false, active);
    process_pawn_attacks(perspective, board, ksq, Color::Black, false, active);
    process_pawn_attacks(perspective, board, ksq, Color::Black, true, active);
    proof {
        lemma_chain(perspective, k, l0, a1, a2);
        lemma_chain(perspective, k, l0, a1 + a2, a3);
        lemma_chain(perspective, k, l0, a1 + a2 + a3, a4);
    }
}

/// Appends the features of the attacks of the other pieces of a colour.
fn append_color(perspective: Color, board: &Board, ksq: usize, c: Color, active: &mut IndexList)
    requires
        board.wf(),
        ksq < 64,
        old(active)@.len() <= 256,
    ensures
        final(active)@ == bits::capped(
            old(active)@ + kept(perspective, ksq as int, color_threats(board.sq(), c.index())),
            256,
        ),
        final(active)@.len() <= 256,
{
    let ghost k = ksq as int;
    let ghost l0 = active@;
    let ghost a1 = piece_threats(board.sq(), 8 * c.index() + 2);
    let ghost a2 = piece_threats(board.sq(), 8 * c.index() + 3);
    let ghost a3 = piece_threats(board.sq(), 8 * c.index() + 4);
    let ghost a4 = piece_threats(board.sq(), 8 * c.index() + 5);
    append_piece(perspective, board, ksq, c, KNIGHT, active);
    append_piece(perspective, board, ksq, c, BISHOP, active);
    append_piece(perspective, board, ksq, c, ROOK, active);
    append_piece(perspective, board, ksq, c, QUEEN, active);
    proof {
        lemma_chain(perspective, k, l0, a1, a2);
        lemma_chain(perspective, k, l0, a1 + a2, a3);
        lemma_chain(perspective, k, l0, a1 + a2 + a3, a4);
    }
}

/// Appends the features of every attack on the board.
pub fn append_active_indices(perspective: Color, board: &Board, active: &mut IndexList)
    requires
        board.wf(),
        board.king_sq(perspective) < 64,
    ensures
        final(active)@ == bits::capped(
            old(active)@ + kept(
                perspective,
                board.king_sq(perspective),
                active_threats(board.sq()),
            ),
            256,
        ),
{
    let n: usize = active.size();
    let ksq: usize = board.king_square(perspective);
    let ghost l0 = active@;
    append_pawns(perspective, board, ksq, active);
    append_color(perspective, board, ksq, Color::White, active);
    append_color(perspective, board, ksq, Color::Black, active);
    proof {
        let a1 = all_pawn_threats(board.sq());
        let a2 = color_threats(board.sq(), 0);
        let a3 = color_threats(board.sq(), 1);
        lemma_chain(perspective, ksq as int, l0, a1, a2);
        lemma_chain(perspective, ksq as int, l0, a1 + a2, a3);
    }
}

proof fn lemma_chain(
    perspective: Color,
    ksq: int,
    start: Seq<u16>,
    a: Seq<types::Threat>,
    b: Seq<types::Threat>,
)
    ensures
        bits::capped(
            bits::capped(start + kept(perspective, ksq, a), 256) + kept(perspective, ksq, b),
            256,
        ) == bits::capped(start + kept(perspective, ksq, a + b), 256),
{
    lemma_kept_add(perspective, ksq, a, b);
    let x = kept(perspective, ksq, a);
    let y = kept(perspective, ksq, b);
    bits::lemma_capped(start + x, y, 256);
    assert((start + x) + y =~= start + (x + y));
}

// --- changed features -------------------------------------------------------------

/// The attacks of change records that were made, or that were ended.
pub open spec fn changed(l: Seq<DirtyThreat>, made: bool) -> Seq<types::Threat>
    decreases l.len(),
{
    if l.len() == 0 {
        Seq::empty()
    } else {
        changed(l.drop_last(), made) + (if l.last().made() == made {
            seq![l.last().threat()]
        } else {
            Seq::empty()
        })
    }
}

/// Appends the features of the attacks that a move ended and made.
pub fn append_changed_indices(
    perspective: Color,
    ksq: usize,
    diff: &DirtyThreats,
    removed: &mut IndexList,
    added: &mut IndexList,
)
    requires
        ksq < 64,
        forall|i: int|
            0 <= i < diff.list@.len() ==> (#[trigger] diff.list@[i]).threat().pc_sq < 64
                && diff.list@[i].threat().threatened_sq < 64,
    ensures
        final(removed)@ == bits::capped(
            old(removed)@ + kept(perspective, ksq as int, changed(diff.list@, false)),
            256,
        ),
        final(added)@ == bits::capped(
            old(added)@ + kept(perspective, ksq as int, changed(diff.list@, true)),
            256,
        ),
{
    let n: usize = removed.size();
    let k: usize = added.size();
    let ghost r0 = removed@;
    let ghost a0 = added@;
    let list = diff.list.as_slice();
    let mut i: usize = 0;
    proof {
        assert(list@.take(0) =~= Seq::empty());
        assert(r0 + Seq::<u16>::empty() =~= r0);
        assert(a0 + Seq::<u16>::empty() =~= a0);
    }
    while i < list.len()
        invariant
            ksq < 64,
            list@ == diff.list@,
            i <= list@.len(),
            forall|j: int|
                0 <= j < diff.list@.len() ==> (#[trigger] diff.list@[j]).threat().pc_sq < 64
                    && diff.list@[j].threat().threatened_sq < 64,
            removed@ == bits::capped(
                r0 + kept(perspective, ksq as int, changed(list@.take(i as int), false)),
                256,
            ),
            added@ == bits::capped(
                a0 + kept(perspective, ksq as int, changed(list@.take(i as int), true)),
                256,
            ),
            removed@.len() <= 256,
            added@.len() <= 256,
        decreases list@.len() - i,
    {
        let dirty: DirtyThreat = list[i];
        let idx: u16 = make_index(
            perspective,
            dirty.pc(),
            dirty.pc_sq(),
            dirty.threatened_sq(),
            dirty.threatened_pc(),
            ksq,
        );
        let ghost l0 = removed@;
        let ghost m0 = added@;
        let ghost t = dirty.threat();
        let ghost head = list@.take(i as int);
        let ghost next = list@.take(i + 1);
        proof {
            assert(next.drop_last() =~= head);
            assert(next.last() == dirty);
        }
        if dirty.add() {
            added.push_if_lt(idx, DIMENSIONS);
            proof {
                assert(changed(next, false) =~= changed(head, false));
                let f = feature(perspective, ksq as int, t);
                assert(added@ =~= bits::capped(m0 + f, 256));
                lemma_kept_one(perspective, ksq as int, t);
                lemma_chain(perspective, ksq as int, a0, changed(head, true), seq![t]);
            }
        } else {
            removed.push_if_lt(idx, DIMENSIONS);
            proof {
                assert(changed(next, true) =~= changed(head, true));
                let f = feature(perspective, ksq as int, t);
                assert(removed@ =~= bits::capped(l0 + f, 256));
                lemma_kept_one(perspective, ksq as int, t);
                lemma_chain(perspective, ksq as int, r0, changed(head, false), seq![t]);
            }
        }
        i = i + 1;
    }
    assert(list@.take(list@.len() as int) =~= list@);
}

} // verus!
