//! Own king square and piece square.
//!
//! A feature is a piece on a square, seen with the side's own king in one of 32
//! buckets: the board is mirrored so that the king stands on files e to h, and
//! turned over for Black with the colours swapped.
use vstd::prelude::*;
use crate::bits;
use crate::nnue::attacks::pop_lsb;
use crate::nnue::board::Board;
use crate::nnue::board;
use crate::nnue::features;
use crate::nnue::types::{make_piece, Bitboard, Color, DirtyPiece, ValueList, KING, SQ_NONE};
use crate::nnue::types;

verus! {

/// What a network file names this set by.
pub const HASH_VALUE: u32 = 0x7f23_4cb8;

/// The number of features.
pub const DIMENSIONS: usize = 22528;

/// No more pieces than these stand on a board.
pub const MAX_ACTIVE_DIMENSIONS: usize = 32;

pub type IndexList = ValueList<u16, 32>;

/// Where the block of a piece begins: one block of 64 squares for each type
/// and side, own pieces first, and one block for both kings.
pub open spec fn block(perspective: Color, pc: int) -> int {
    let pt = pc % 8;
    if pt == 0 || pt == 7 {
        0
    } else if pt == 6 {
        640
    } else {
        128 * (pt - 1) + (if pc / 8 == perspective.index() {
            0int
        } else {
            64
        })
    }
}

/// Where the block of a piece begins.
pub fn piece_square(perspective: Color, pc: u8) -> (r: u16)
    requires
        pc < 16,
    ensures
        r == block(perspective, pc as int),
        r <= 640,
{
    let pt: u16 = (pc % 8) as u16;
    if pt == 0 || pt == 7 {
        0
    } else if pt == 6 {
        640
    } else if (pc / 8) as usize == perspective.idx() {
        128 * (pt - 1)
    } else {
        128 * (pt - 1) + 64
    }
}

/// Where the features of a king square begin: 704 for each of 32 buckets, with
/// mirrored squares in one bucket.
pub open spec fn bucket(ksq: int) -> int {
    let file = ksq % 8;
    704 * (28 - 4 * (ksq / 8) + (if file < 7 - file {
        file
    } else {
        7 - file
    }))
}

/// Where the features of a king square begin.
pub fn king_bucket(ksq: usize) -> (r: u16)
    requires
        ksq < 64,
    ensures
        r == bucket(ksq as int),
        r <= 31 * 704,
{
    let rank: usize = ksq / 8;
    let file: usize = ksq % 8;
    let m: usize = if file < 7 - file {
        file
    } else {
        7 - file
    };
    ((28 - 4 * rank + m) * 704) as u16
}

/// The board is mirrored where the king stands on files a to d.
pub open spec fn mirrors(ksq: int) -> bool {
    ksq % 8 < 4
}

/// What the squares are combined with: 7 where the king stands on files a to
/// d, 0 on files e to h.
pub fn orient_tbl(ksq: usize) -> (r: usize)
    ensures
        r == (if mirrors(ksq as int) {
            7int
        } else {
            0
        }),
{
    if ksq % 8 < 4 {
        7
    } else {
        0
    }
}

/// The feature of the piece `pc` on `s`, as `perspective` sees it with its
/// king on `ksq`.
pub open spec fn index(perspective: Color, s: int, pc: int, ksq: int) -> int {
    let turn = perspective == Color::Black;
    features::oriented(s, mirrors(ksq), turn) + block(perspective, pc) + bucket(
        features::oriented(ksq, false, turn),
    )
}

/// The feature of the piece `pc` on `s`, as `perspective` sees it with its
/// king on `ksq`.
pub fn make_index(perspective: Color, s: usize, pc: u8, ksq: usize) -> (r: u16)
    requires
        s < 64,
        ksq < 64,
        pc < 16,
    ensures
        r == index(perspective, s as int, pc as int, ksq as int),
        r < DIMENSIONS,
{
    let turn: bool = match perspective {
        Color::White => false,
        Color::Black => true,
    };
    features::orient(s, ksq % 8 < 4, turn) as u16 + piece_square(perspective, pc) + king_bucket(
        features::orient(ksq, false, turn),
    )
}

/// Whether the move changes every feature of `perspective`, because its own
/// king moved.
pub fn requires_refresh(diff: &DirtyPiece, perspective: Color) -> (r: bool)
    ensures
        r == (diff.pc == 8 * perspective.index() + KING),
{
    diff.pc == make_piece(perspective.idx(), KING)
}

/// The squares and pieces of a change record lie within the board.
pub open spec fn valid_diff(diff: DirtyPiece) -> bool {
    &&& diff.from < 64 && diff.pc < 16
    &&& diff.to <= 64
    &&& diff.remove_sq <= 64 && diff.remove_pc < 16
    &&& diff.add_sq <= 64 && diff.add_pc < 16
}

/// The features that the change record takes away.
pub open spec fn removed_by(perspective: Color, ksq: int, diff: DirtyPiece) -> Seq<u16> {
    seq![index(perspective, diff.from as int, diff.pc as int, ksq) as u16] + (if diff.remove_sq
        != SQ_NONE {
        seq![index(perspective, diff.remove_sq as int, diff.remove_pc as int, ksq) as u16]
    } else {
        Seq::empty()
    })
}

/// The features that the change record brings.
pub open spec fn added_by(perspective: Color, ksq: int, diff: DirtyPiece) -> Seq<u16> {
    (if diff.to != SQ_NONE {
        seq![index(perspective, diff.to as int, diff.pc as int, ksq) as u16]
    } else {
        Seq::empty()
    }) + (if diff.add_sq != SQ_NONE {
        seq![index(perspective, diff.add_sq as int, diff.add_pc as int, ksq) as u16]
    } else {
        Seq::empty()
    })
}

/// Appends the features that a move removed and added.
pub fn append_changed_indices(
    perspective: Color,
    ksq: usize,
    diff: &DirtyPiece,
    removed: &mut IndexList,
    added: &mut IndexList,
)
    requires
        ksq < 64,
        valid_diff(*diff),
    ensures
        final(removed)@ == bits::capped(
            old(removed)@ + removed_by(perspective, ksq as int, *diff),
            32,
        ),
        final(added)@ == bits::capped(old(added)@ + added_by(perspective, ksq as int, *diff), 32),
{
    let n: usize = removed.size();
    let k: usize = added.size();
    let ghost r0 = removed@;
    let ghost a0 = added@;
    removed.push(make_index(perspective, diff.from, diff.pc, ksq));
    let ghost r1 = seq![index(perspective, diff.from as int, diff.pc as int, ksq as int) as u16];
    let ghost mut a1: Seq<u16> = Seq::empty();
    assert(removed@ =~= bits::capped(r0 + r1, 32));
    if diff.to != SQ_NONE {
        added.push(make_index(perspective, diff.to, diff.pc, ksq));
        proof {
            a1 = seq![index(perspective, diff.to as int, diff.pc as int, ksq as int) as u16];
        }
    }
    assert(added@ =~= bits::capped(a0 + a1, 32));
    let ghost mut r2: Seq<u16> = Seq::empty();
    let ghost mut a2: Seq<u16> = Seq::empty();
    let ghost rr = removed@;
    let ghost aa = added@;
    if diff.remove_sq != SQ_NONE {
        removed.push(make_index(perspective, diff.remove_sq, diff.remove_pc, ksq));
        proof {
            r2 = seq![
                index(perspective, diff.remove_sq as int, diff.remove_pc as int, ksq as int) as u16,
            ];
        }
    }
    assert(removed@ =~= bits::capped(rr + r2, 32));
    if diff.add_sq != SQ_NONE {
        added.push(make_index(perspective, diff.add_sq, diff.add_pc, ksq));
        proof {
            a2 = seq![
                index(perspective, diff.add_sq as int, diff.add_pc as int, ksq as int) as u16,
            ];
        }
    }
    assert(added@ =~= bits::capped(aa + a2, 32));
    proof {
        bits::lemma_capped(r0 + r1, r2, 32);
        assert((r0 + r1) + r2 =~= r0 + (r1 + r2));
        bits::lemma_capped(a0 + a1, a2, 32);
        assert((a0 + a1) + a2 =~= a0 + (a1 + a2));
    }
}

/// The occupied squares.
pub open spec fn occupied(sq: Seq<u8>) -> spec_fn(int) -> bool {
    |s: int| sq[s] != 0
}

/// The feature of one occupied square.
pub open spec fn square_rec(perspective: Color, sq: Seq<u8>, ksq: int) -> spec_fn(int) -> Seq<u16> {
    |s: int| seq![index(perspective, s, sq[s] as int, ksq) as u16]
}

/// The features of a board, one for each piece, kings among them.
pub open spec fn active(perspective: Color, sq: Seq<u8>, ksq: int) -> Seq<u16> {
    bits::flat(board::word_of(occupied(sq)), square_rec(perspective, sq, ksq))
}

/// Appends the features of a board.
pub fn append_active_indices(perspective: Color, board: &Board, active: &mut IndexList)
    requires
        board.wf(),
        board.king_sq(perspective) < 64,
    ensures
        final(active)@ == bits::capped(
            old(active)@ + self::active(perspective, board.sq(), board.king_sq(perspective)),
            32,
        ),
{
    let ksq: usize = board.king_square(perspective);
    let n: usize = active.size();
    let mut bb: Bitboard = board.pieces();
    let ghost all = bb;
    let ghost start = active@;
    let ghost rec = square_rec(perspective, board.sq(), ksq as int);
    proof {
        board::lemma_word_of(all, occupied(board.sq()));
        board.lemma_valid();
    }
    while bb != 0
        invariant
            board.wf(),
            board::valid_squares(board.sq()),
            ksq < 64,
            rec == square_rec(perspective, board.sq(), ksq as int),
            active@.len() <= 32,
            bits::capped(active@ + bits::flat(bb, rec), 32) == bits::capped(
                start + bits::flat(all, rec),
                32,
            ),
        decreases bb,
    {
        let ghost b0 = bb;
        let ghost l0 = active@;
        let s: usize = pop_lsb(&mut bb);
        active.push(make_index(perspective, s, board.piece_on(s), ksq));
        proof {
            assert(l0.push(
                index(perspective, s as int, board.sq()[s as int] as int, ksq as int) as u16,
            ) =~= l0 + rec(s as int));
            bits::lemma_capped(l0 + rec(s as int), bits::flat(bb, rec), 32);
            assert((l0 + rec(s as int)) + bits::flat(bb, rec) =~= l0 + bits::flat(b0, rec));
        }
    }
    assert(active@ + bits::flat(0u64, rec) =~= active@);
}

/// What Black sees is what White sees on the board turned over with the
/// colours swapped.
pub proof fn law_black_mirrors_white(s: int, pc: int, ksq: int)
    requires
        0 <= s < 64,
        0 <= ksq < 64,
        types::is_piece(pc),
    ensures
        index(Color::Black, s, pc, ksq) == index(
            Color::White,
            features::oriented(s, false, true),
            features::recolored(pc),
            features::oriented(ksq, false, true),
        ),
{
}

/// With the king in one place, different pieces or squares are different
/// features; both kings share a block, but not a square.
pub proof fn law_features_differ(
    perspective: Color,
    s: int,
    pc: int,
    t: int,
    qc: int,
    ksq: int,
)
    requires
        0 <= s < 64,
        0 <= t < 64,
        0 <= ksq < 64,
        types::is_piece(pc),
        types::is_piece(qc),
        !(pc % 8 == KING && qc % 8 == KING),
    ensures
        index(perspective, s, pc, ksq) == index(perspective, t, qc, ksq) <==> s == t && pc == qc,
{
    let turn = perspective == Color::Black;
    let a = features::oriented(s, mirrors(ksq), turn);
    let b = features::oriented(t, mirrors(ksq), turn);
    features::lemma_oriented(s, mirrors(ksq), turn);
    features::lemma_oriented(t, mirrors(ksq), turn);
    let x = block(perspective, pc);
    let y = block(perspective, qc);
    assert(x % 64 == 0 && y % 64 == 0);
    assert(x == y ==> pc == qc);
    assert(a + x == b + y <==> a == b && x == y);
}

/// Mirroring the king together with the piece gives the same feature.
pub proof fn law_mirror(perspective: Color, s: int, pc: int, ksq: int)
    requires
        0 <= s < 64,
        0 <= ksq < 64,
        types::is_piece(pc),
    ensures
        index(perspective, s, pc, ksq) == index(
            perspective,
            features::oriented(s, true, false),
            pc,
            features::oriented(ksq, true, false),
        ),
{
    let turn = perspective == Color::Black;
    let s2 = features::oriented(s, true, false);
    let k2 = features::oriented(ksq, true, false);
    assert(s2 / 8 == s / 8 && s2 % 8 == 7 - s % 8);
    assert(k2 / 8 == ksq / 8 && k2 % 8 == 7 - ksq % 8);
    assert(features::oriented(s2, mirrors(k2), turn) == features::oriented(s, mirrors(ksq), turn));
    let b = features::oriented(ksq, false, turn);
    let b2 = features::oriented(k2, false, turn);
    assert(b2 / 8 == b / 8 && b2 % 8 == 7 - b % 8);
    assert(bucket(b2) == bucket(b));
}

/// Each king's square has a block of its own, each kind a part of the block in which the own
/// pieces come before the enemy's, and the kings share one part. A side sees the board with its
/// king on the right half.
pub proof fn law_parts_of_a_block(perspective: Color, s: int, kind: int, ksq: int)
    requires
        0 <= s < 64,
        0 <= ksq < 64,
        types::PAWN <= kind <= KING,
    ensures
        ({
            let own = 8 * perspective.index() + kind;
            let theirs = 8 * perspective.opposite().index() + kind;
            &&& kind != KING ==> index(perspective, s, theirs, ksq) == index(
                perspective,
                s,
                own,
                ksq,
            ) + 64
            &&& kind != KING ==> index(perspective, s, own + 1, ksq) == index(
                perspective,
                s,
                own,
                ksq,
            ) + 128
            &&& kind == KING ==> index(perspective, s, theirs, ksq) == index(
                perspective,
                s,
                own,
                ksq,
            )
        }),
        ksq % 8 >= 4 ==> index(Color::White, s, types::PAWN as int, ksq) == s + 704 * (28 - 4 * (ksq / 8)
            + 7 - ksq % 8),
        ksq % 8 < 4 ==> index(Color::White, s, types::PAWN as int, ksq) == 8 * (s / 8) + 7 - s % 8 + 704
            * (28 - 4 * (ksq / 8) + ksq % 8),
{
}

} // verus!
