//! Why keeping sums up to date move by move works: the changes that a move
//! reports are exactly the difference between the boards before and after it.
use vstd::prelude::*;
use crate::bits;
use crate::nnue::attacks;
use crate::nnue::board;
use crate::nnue::features::{full_threats, half_ka_v2_hm, pp_3wide};
use crate::nnue::geometry;
use crate::nnue::types::{Color, DirtyPiece, DirtyThreat, KING, PAWN, ROOK, SQ_NONE};
use crate::nnue::types;
use crate::sums;
use crate::types::{RawMove, CASTLE, EN_PASSANT};

verus! {

/// The attack `t` stands on the board.
pub open spec fn stands(sq: Seq<u8>, t: types::Threat) -> bool {
    &&& board::threatens(sq, t.pc_sq, t.threatened_sq)
    &&& sq[t.pc_sq] == t.pc
    &&& sq[t.threatened_sq] == t.threatened_pc
}

/// 1 where the attack stands, 0 where it does not.
pub open spec fn standing(sq: Seq<u8>, t: types::Threat) -> int {
    if stands(sq, t) {
        1
    } else {
        0
    }
}

/// What a record counts for the attack `t`: 1 where it made it, -1 where it
/// ended it.
pub open spec fn net_of(t: types::Threat) -> spec_fn(DirtyThreat) -> int {
    |r: DirtyThreat|
        if r.threat() == t {
            if r.made() {
                1int
            } else {
                -1
            }
        } else {
            0
        }
}

/// The piece `pc`, on `s`, takes part in the attack `t`.
pub open spec fn direct(sq: Seq<u8>, pc: int, s: int, t: types::Threat) -> int {
    (if t.pc == pc && t.pc_sq == s && t.threatened_pc == sq[t.threatened_sq]
        && board::attacks_at(sq, pc, s)(t.threatened_sq) {
        1int
    } else {
        0
    }) + (if t.threatened_pc == pc && t.threatened_sq == s && t.pc == sq[t.pc_sq]
        && board::attacked_from(sq, pc, s, false)(t.pc_sq) {
        1int
    } else {
        0
    })
}

/// The attack `t` runs over `s`.
pub open spec fn over(sq: Seq<u8>, s: int, mask: u64, t: types::Threat) -> int {
    if t.pc == sq[t.pc_sq] && t.threatened_pc == sq[t.threatened_sq] && board::slider_on(
        sq,
        t.pc_sq,
        s,
    ) && board::runs_over(sq, t.pc_sq, s, t.threatened_sq, mask) {
        1
    } else {
        0
    }
}

/// 1 for coming, -1 for leaving.
pub open spec fn way(put: bool) -> int {
    if put {
        1
    } else {
        -1
    }
}

proof fn lemma_record(pc: int, target: int, a: int, b: int, made: bool, t: types::Threat)
    requires
        0 <= pc < 16,
        0 <= target < 16,
        0 <= a < 64,
        0 <= b < 64,
    ensures
        net_of(t)(board::record(pc, target, a, b, made)) == (if t.pc == pc && t.threatened_pc
            == target && t.pc_sq == a && t.threatened_sq == b {
            way(made)
        } else {
            0
        }),
        sums::total(seq![board::record(pc, target, a, b, made)], net_of(t)) == net_of(t)(
            board::record(pc, target, a, b, made),
        ),
{
    DirtyThreat::lemma_packed(
        types::Threat { pc, threatened_pc: target, pc_sq: a, threatened_sq: b },
        made,
    );
    sums::lemma_total_one(board::record(pc, target, a, b, made), net_of(t));
}

/// What the outgoing records come to.
proof fn lemma_outgoing(sq: Seq<u8>, pc: int, put: bool, s: int, t: types::Threat)
    requires
        board::valid_squares(sq),
        0 <= s < 64,
        types::is_piece(pc),
    ensures
        sums::total(
            bits::flat(
                board::word_of(board::attacks_at(sq, pc, s)),
                board::outgoing_rec(sq, pc, put, s),
            ),
            net_of(t),
        ) == (if t.pc == pc && t.pc_sq == s && t.threatened_pc == sq[t.threatened_sq]
            && board::attacks_at(sq, pc, s)(t.threatened_sq) {
            way(put)
        } else {
            0
        }),
{
    let p = board::attacks_at(sq, pc, s);
    let bb = board::word_of(p);
    let rec = board::outgoing_rec(sq, pc, put, s);
    let w = net_of(t);
    let k = t.threatened_sq;
    board::lemma_word_exists(p);
    assert forall|q: int| q != k && bits::mem(bb, q) implies sums::total(#[trigger] rec(q), w)
        == 0 by {
        lemma_record(pc, sq[q] as int, s, q, put, t);
    }
    sums::lemma_flat_at(bb, rec, w, k);
    if bits::mem(bb, k) {
        lemma_record(pc, sq[k] as int, s, k, put, t);
    }
}

/// What the incoming records come to.
proof fn lemma_incoming(sq: Seq<u8>, pc: int, put: bool, s: int, ray: bool, t: types::Threat)
    requires
        board::valid_squares(sq),
        0 <= s < 64,
        types::is_piece(pc),
    ensures
        sums::total(
            bits::flat(
                board::word_of(board::attacked_from(sq, pc, s, ray)),
                board::incoming_rec(sq, pc, put, s),
            ),
            net_of(t),
        ) == (if t.threatened_pc == pc && t.threatened_sq == s && t.pc == sq[t.pc_sq]
            && board::attacked_from(sq, pc, s, ray)(t.pc_sq) {
            way(put)
        } else {
            0
        }),
{
    let p = board::attacked_from(sq, pc, s, ray);
    let bb = board::word_of(p);
    let rec = board::incoming_rec(sq, pc, put, s);
    let w = net_of(t);
    let k = t.pc_sq;
    board::lemma_word_exists(p);
    assert forall|q: int| q != k && bits::mem(bb, q) implies sums::total(#[trigger] rec(q), w)
        == 0 by {
        lemma_record(sq[q] as int, pc, q, s, put, t);
    }
    sums::lemma_flat_at(bb, rec, w, k);
    if bits::mem(bb, k) {
        lemma_record(sq[k] as int, pc, k, s, put, t);
    }
}

/// What the record of an uncovered attack comes to.
proof fn lemma_uncovered(sq: Seq<u8>, q: int, s: int, put: bool, mask: u64, t: types::Threat)
    requires
        board::valid_squares(sq),
        0 <= s < 64,
        board::slider_on(sq, q, s),
    ensures
        sums::total(board::uncovered(sq, q, s, put, mask), net_of(t)) == (if t.pc_sq == q {
            -way(put) * over(sq, s, mask, t)
        } else {
            0
        }),
{
    sums::lemma_total_one(board::record(0, 0, 0, 0, put), net_of(t));
    if exists|d: int| board::runs_over(sq, q, s, d, mask) {
        let d = choose|d: int| board::runs_over(sq, q, s, d, mask);
        lemma_record(sq[q] as int, sq[d] as int, q, d, !put, t);
        if t.pc_sq == q && board::runs_over(sq, q, s, t.threatened_sq, mask) {
            board::lemma_first_beyond(sq, q, s, d, t.threatened_sq);
        }
    }
}

/// What the records of the sliders come to.
proof fn lemma_slider_records(
    sq: Seq<u8>,
    pc: int,
    put: bool,
    s: int,
    mask: u64,
    with_direct: bool,
    t: types::Threat,
)
    requires
        board::valid_squares(sq),
        0 <= s < 64,
        types::is_piece(pc),
    ensures
        sums::total(board::slider_records(sq, pc, put, s, mask, with_direct), net_of(t)) == -way(put)
            * over(sq, s, mask, t) + (if with_direct && t.threatened_pc == pc && t.threatened_sq == s
            && t.pc == sq[t.pc_sq] && board::slider_on(sq, t.pc_sq, s) && board::may_threaten(
            sq[t.pc_sq] as int % 8,
            pc % 8,
        ) {
            way(put)
        } else {
            0
        }),
{
    let p = board::sliders_to(sq, s);
    let bb = board::word_of(p);
    let rec = board::slider_rec(sq, pc, put, s, mask, with_direct);
    let w = net_of(t);
    let k = t.pc_sq;
    board::lemma_word_exists(p);
    assert forall|q: int| bits::mem(bb, q) implies sums::total(#[trigger] rec(q), w) == (if q == k {
        -way(put) * over(sq, s, mask, t)
    } else {
        0
    }) + (if q == k && with_direct && t.threatened_pc == pc && t.threatened_sq == s && t.pc == sq[q]
        && board::may_threaten(sq[q] as int % 8, pc % 8) {
        way(put)
    } else {
        0
    }) by {
        lemma_uncovered(sq, q, s, put, mask, t);
        lemma_record(sq[q] as int, pc, q, s, put, t);
        let second = if with_direct && board::may_threaten(sq[q] as int % 8, pc % 8) {
            seq![board::record(sq[q] as int, pc, q, s, put)]
        } else {
            Seq::empty()
        };
        sums::lemma_total_add(board::uncovered(sq, q, s, put, mask), second, w);
        sums::lemma_total_one(board::record(0, 0, 0, 0, put), w);
    }
    sums::lemma_flat_at(bb, rec, w, k);
}

/// What all records of a piece coming or leaving come to.
proof fn lemma_emitted(
    sq: Seq<u8>,
    pc: int,
    put: bool,
    s: int,
    ray: bool,
    mask: u64,
    t: types::Threat,
)
    requires
        board::valid_squares(sq),
        0 <= s < 64,
        types::is_piece(pc),
    ensures
        sums::total(board::emitted(sq, pc, put, s, ray, mask), net_of(t)) == way(put) * (direct(
            sq,
            pc,
            s,
            t,
        ) - (if ray {
            over(sq, s, mask, t)
        } else {
            0
        })),
{
    let w = net_of(t);
    sums::lemma_total_one(board::record(0, 0, 0, 0, put), w);
    if pc % 8 == KING {
        if ray {
            lemma_slider_records(sq, pc, put, s, mask, false, t);
        }
    } else {
        let e1 = bits::flat(
            board::word_of(board::attacks_at(sq, pc, s)),
            board::outgoing_rec(sq, pc, put, s),
        );
        let e2 = if ray {
            board::slider_records(sq, pc, put, s, mask, true)
        } else {
            Seq::empty()
        };
        let e3 = bits::flat(
            board::word_of(board::attacked_from(sq, pc, s, ray)),
            board::incoming_rec(sq, pc, put, s),
        );
        lemma_outgoing(sq, pc, put, s, t);
        if ray {
            lemma_slider_records(sq, pc, put, s, mask, true, t);
        }
        lemma_incoming(sq, pc, put, s, ray, t);
        sums::lemma_total_add(e1, e2, w);
        sums::lemma_total_add(e1 + e2, e3, w);
    }
}

/// What putting a piece on an empty square changes.
proof fn lemma_put(sq: Seq<u8>, pc: int, s: int, t: types::Threat)
    requires
        board::valid_squares(sq),
        0 <= s < 64,
        sq[s] == 0,
        types::is_piece(pc),
    ensures
        standing(sq.update(s, pc as u8), t) - standing(sq, t) == direct(sq, pc, s, t) - over(
            sq,
            s,
            board::ALL_SQUARES,
            t,
        ),
{
    let next = sq.update(s, pc as u8);
    let a = t.pc_sq;
    let b = t.threatened_sq;
    if a == s || b == s {
        board::lemma_lines_without(sq, s, pc as u8, a, b);
    } else if geometry::on_board(a) && geometry::on_board(b) {
        if geometry::between(a, s, b) {
            lemma_split(sq, a, s, b);
            geometry::lemma_between_aligned(a, s, b);
            assert(next[s] != 0);
            assert(!board::open_line(next, a, b));
            lemma_not_within(a, s);
        } else {
            assert(board::open_line(next, a, b) == board::open_line(sq, a, b)) by {
                assert forall|x: int| #[trigger] geometry::between(a, x, b) implies next[x]
                    == sq[x] by {}
            }
        }
    }
}

/// A line over `s` is open exactly where both its parts are and `s` is empty.
proof fn lemma_split(sq: Seq<u8>, a: int, s: int, b: int)
    requires
        geometry::between(a, s, b),
    ensures
        board::open_line(sq, a, b) == (board::open_line(sq, a, s) && sq[s] == 0
            && board::open_line(sq, s, b)),
{
    assert forall|x: int| #[trigger] geometry::between(a, x, b) == (geometry::between(a, x, s) || x
        == s || geometry::between(s, x, b)) by {
        geometry::lemma_between_split(a, s, b, x);
    }
    if board::open_line(sq, a, b) {
        assert forall|x: int| #[trigger] geometry::between(a, x, s) implies sq[x] == 0 by {
            assert(geometry::between(a, x, b));
        }
        assert forall|x: int| #[trigger] geometry::between(s, x, b) implies sq[x] == 0 by {
            assert(geometry::between(a, x, b));
        }
        assert(geometry::between(a, s, b));
    }
}

/// No line holds all squares: not its own origin.
proof fn lemma_not_within(q: int, s: int)
    requires
        geometry::on_board(q),
    ensures
        !board::within_line(q, s, board::ALL_SQUARES),
{
    let i = q as u64;
    assert((0xffff_ffff_ffff_ffffu64 >> i) & 1u64 == 1u64) by (bit_vector)
        requires
            i < 64,
    ;
    assert(bits::mem(board::ALL_SQUARES, q));
    assert(!attacks::on_line_through(q, s, q));
}

/// What taking a piece off changes.
proof fn lemma_remove(sq: Seq<u8>, s: int, t: types::Threat)
    requires
        board::valid_squares(sq),
        0 <= s < 64,
        sq[s] != 0,
    ensures
        sums::total(board::remove_records(sq, s), net_of(t)) == standing(sq.update(s, 0), t)
            - standing(sq, t),
{
    let gone = sq.update(s, 0);
    assert(board::valid_squares(gone));
    assert(gone.update(s, sq[s]) =~= sq);
    lemma_emitted(gone, sq[s] as int, false, s, true, board::ALL_SQUARES, t);
    lemma_put(gone, sq[s] as int, s, t);
}

/// What putting a piece reports.
proof fn lemma_put_records(sq: Seq<u8>, pc: int, s: int, t: types::Threat)
    requires
        board::valid_squares(sq),
        0 <= s < 64,
        sq[s] == 0,
        types::is_piece(pc),
    ensures
        sums::total(board::put_records(sq, pc, s), net_of(t)) == standing(
            sq.update(s, pc as u8),
            t,
        ) - standing(sq, t),
{
    lemma_emitted(sq, pc, true, s, true, board::ALL_SQUARES, t);
    lemma_put(sq, pc, s, t);
}

/// What putting a piece in the place of another reports.
proof fn lemma_swap_records(sq: Seq<u8>, s: int, pc: int, t: types::Threat)
    requires
        board::valid_squares(sq),
        0 <= s < 64,
        sq[s] != 0,
        types::is_piece(pc),
    ensures
        sums::total(board::swap_records(sq, s, pc), net_of(t)) == standing(
            sq.update(s, pc as u8),
            t,
        ) - standing(sq, t),
{
    let gone = sq.update(s, 0);
    assert(board::valid_squares(gone));
    assert(gone.update(s, sq[s]) =~= sq);
    assert(gone.update(s, pc as u8) =~= sq.update(s, pc as u8));
    lemma_emitted(gone, sq[s] as int, false, s, false, board::ALL_SQUARES, t);
    lemma_emitted(gone, pc, true, s, false, board::ALL_SQUARES, t);
    lemma_put(gone, sq[s] as int, s, t);
    lemma_put(gone, pc, s, t);
    sums::lemma_total_add(
        board::emitted(gone, sq[s] as int, false, s, false, board::ALL_SQUARES),
        board::emitted(gone, pc, true, s, false, board::ALL_SQUARES),
        net_of(t),
    );
}

/// An attack runs over the nearer of two empty squares of one line exactly
/// where it runs over the farther one, when nothing stands between them.
proof fn lemma_over_both(sq: Seq<u8>, x: int, y: int, t: types::Threat)
    requires
        board::valid_squares(sq),
        sq[x] == 0,
        sq[y] == 0,
        geometry::between(t.pc_sq, x, y),
        board::open_line(sq, x, y),
    ensures
        over(sq, x, board::ALL_SQUARES, t) == over(sq, y, board::ALL_SQUARES, t),
{
    let a = t.pc_sq;
    let b = t.threatened_sq;
    lemma_not_within(a, x);
    lemma_not_within(a, y);
    lemma_split(sq, a, x, y);
    geometry::lemma_between_aligned(a, x, y);
    if geometry::between(a, x, b) && sq[b] != 0 {
        geometry::lemma_beyond(a, x, y, b);
        if geometry::between(x, b, y) {
            assert(sq[b] == 0);
        }
        lemma_beyond_both(a, x, y, b);
        lemma_split(sq, x, y, b);
    }
    if geometry::between(a, y, b) {
        lemma_beyond_both(a, x, y, b);
        lemma_split(sq, x, y, b);
    }
}

proof fn lemma_beyond_both(a: int, x: int, y: int, b: int)
    requires
        geometry::between(a, x, y),
        geometry::between(a, y, b) || (geometry::between(a, x, b) && geometry::between(x, y, b)),
    ensures
        geometry::between(a, x, b),
        geometry::between(a, y, b),
        geometry::between(x, y, b),
{
}

/// What moving a piece to an empty square reports.
proof fn lemma_shift_records(sq: Seq<u8>, from: int, to: int, t: types::Threat)
    requires
        board::valid_squares(sq),
        0 <= from < 64,
        0 <= to < 64,
        sq[from] != 0,
        sq[to] == 0,
        board::open_line(sq, from, to),
    ensures
        sums::total(board::shift_records(sq, from, to), net_of(t)) == standing(
            sq.update(from, 0).update(to, sq[from]),
            t,
        ) - standing(sq, t),
{
    let pc = sq[from] as int;
    let gone = sq.update(from, 0);
    let both = (1u64 << (from as u64)) | (1u64 << (to as u64));
    assert(board::valid_squares(gone));
    assert(gone.update(from, sq[from]) =~= sq);
    lemma_emitted(gone, pc, false, from, true, both, t);
    lemma_emitted(gone, pc, true, to, true, both, t);
    sums::lemma_total_add(
        board::emitted(gone, pc, false, from, true, both),
        board::emitted(gone, pc, true, to, true, both),
        net_of(t),
    );
    lemma_put(gone, pc, from, t);
    lemma_put(gone, pc, to, t);
    board::lemma_lines_without(sq, from, 0, from, to);
    lemma_mask(gone, from, to, both, t);
}

/// Leaving out the lines that hold both squares leaves out as much at the one
/// as at the other.
proof fn lemma_mask(sq: Seq<u8>, from: int, to: int, both: u64, t: types::Threat)
    requires
        board::valid_squares(sq),
        0 <= from < 64,
        0 <= to < 64,
        from != to,
        sq[from] == 0,
        sq[to] == 0,
        board::open_line(sq, from, to),
        both == (1u64 << (from as u64)) | (1u64 << (to as u64)),
    ensures
        over(sq, from, both, t) - over(sq, to, both, t) == over(sq, from, board::ALL_SQUARES, t)
            - over(sq, to, board::ALL_SQUARES, t),
{
    let a = t.pc_sq;
    assert forall|x: int| #[trigger] bits::mem(both, x) == (x == from || x == to) by {
        bits::mem_or(1u64 << (from as u64), 1u64 << (to as u64), x);
        bits::mem_bit(from as u64, x);
        bits::mem_bit(to as u64, x);
    }
    assert(bits::mem(both, from) && bits::mem(both, to));
    if geometry::on_board(a) {
        lemma_not_within(a, from);
        lemma_not_within(a, to);
        let joint = geometry::between(a, from, to) || geometry::between(a, to, from);
        if joint {
            assert(attacks::on_line_through(a, from, to));
            assert(attacks::on_line_through(a, to, from));
            geometry::lemma_between_sym(a, from, to);
            if geometry::between(a, from, to) {
                geometry::lemma_between_aligned(a, from, to);
                lemma_over_both(sq, from, to, t);
            } else {
                geometry::lemma_between_aligned(a, to, from);
                board::lemma_open_line_sym(sq, from, to);
                lemma_over_both(sq, to, from, t);
            }
            assert(attacks::on_line_through(a, from, from));
            assert(attacks::on_line_through(a, to, to));
            assert(board::within_line(a, from, both));
            assert(board::within_line(a, to, both));
        } else {
            assert(!attacks::on_line_through(a, from, to));
            assert(!attacks::on_line_through(a, to, from));
            assert(!board::within_line(a, from, both));
            assert(!board::within_line(a, to, both));
        }
    }
}

/// Nothing stands between the squares of a move to an empty square, castling
/// aside, and it is a pawn that captures en passant.
pub open spec fn regular(sq: Seq<u8>, m: RawMove) -> bool {
    &&& m.kind_spec() != CASTLE && sq[m.to_sq()] == 0 ==> board::open_line(
        sq,
        m.from_sq(),
        m.to_sq(),
    )
    &&& m.kind_spec() == EN_PASSANT ==> sq[m.from_sq()] as int % 8 == PAWN
}

/// The records of a move are exactly its attacks made, less its attacks ended.
#[verifier::spinoff_prover]
#[verifier::rlimit(40)]
pub proof fn law_move_records(sq: Seq<u8>, m: RawMove, us: Color, t: types::Threat)
    requires
        board::valid_squares(sq),
        board::playable(sq, m, us),
        regular(sq, m),
    ensures
        sums::total(board::move_records(sq, m, us), net_of(t)) == standing(
            board::played(sq, m, us),
            t,
        ) - standing(sq, t),
        board::valid_squares(board::played(sq, m, us)),
{
    let from = m.from_sq();
    let to = m.to_sq();
    let w = net_of(t);
    if m.kind_spec() == CASTLE {
        let (kto, rto) = board::castle_to(from, to, us);
        let king = 8 * us.index() + KING;
        let rook = 8 * us.index() + ROOK;
        let s1 = sq.update(from, 0);
        let s2 = s1.update(to, 0);
        let s3 = s2.update(kto, king as u8);
        let e1 = board::remove_records(sq, from);
        let e2 = board::remove_records(s1, to);
        let e3 = board::put_records(s2, king, kto);
        let e4 = board::put_records(s3, rook, rto);
        assert(board::valid_squares(s1) && board::valid_squares(s2) && board::valid_squares(s3));
        lemma_remove(sq, from, t);
        lemma_remove(s1, to, t);
        lemma_put_records(s2, king, kto, t);
        lemma_put_records(s3, rook, rto, t);
        sums::lemma_total_add(e1, e2, w);
        sums::lemma_total_add(e1 + e2, e3, w);
        sums::lemma_total_add(e1 + e2 + e3, e4, w);
    } else if m.kind_spec() == EN_PASSANT {
        let cap = board::passed_pawn(to, us);
        let s1 = sq.update(cap, 0);
        assert(board::valid_squares(s1));
        lemma_remove(sq, cap, t);
        assert(board::open_line(s1, from, to)) by {
            assert forall|x: int| #[trigger] geometry::between(from, x, to) implies s1[x] == 0 by {}
        }
        lemma_shift_records(s1, from, to, t);
        sums::lemma_total_add(
            board::remove_records(sq, cap),
            board::shift_records(s1, from, to),
            w,
        );
    } else {
        let s1 = sq.update(from, 0);
        let pc = board::arriving(sq, m, us) as int;
        assert(board::valid_squares(s1));
        assert(types::is_piece(pc));
        if sq[to] != 0 {
            lemma_remove(sq, from, t);
            lemma_swap_records(s1, to, pc, t);
            sums::lemma_total_add(
                board::remove_records(sq, from),
                board::swap_records(s1, to, pc),
                w,
            );
        } else if sq[from] == pc {
            lemma_shift_records(sq, from, to, t);
        } else {
            lemma_remove(sq, from, t);
            lemma_put_records(s1, pc, to, t);
            sums::lemma_total_add(
                board::remove_records(sq, from),
                board::put_records(s1, pc, to),
                w,
            );
        }
    }
}

// --- the attacks of a board ------------------------------------------------------------

proof fn lemma_hits_counted(sq: Seq<u8>, pc: int, from: int, t: types::Threat)
    requires
        board::valid_squares(sq),
        0 <= from < 64,
    ensures
        sums::total(full_threats::hit_threats(sq, pc, from), sums::is(t)) == (if t.pc_sq == from
            && board::attacks_at(sq, pc, from)(t.threatened_sq) && t == full_threats::threat_at(
            sq,
            from,
            t.threatened_sq,
        ) {
            1int
        } else {
            0
        }),
{
    let p = board::attacks_at(sq, pc, from);
    let bb = board::word_of(p);
    let rec = full_threats::hit_rec(sq, from);
    let k = t.threatened_sq;
    board::lemma_word_exists(p);
    assert forall|q: int| q != k && bits::mem(bb, q) implies sums::total(
        #[trigger] rec(q),
        sums::is(t),
    ) == 0 by {
        sums::lemma_total_one(full_threats::threat_at(sq, from, q), sums::is(t));
    }
    sums::lemma_flat_at(bb, rec, sums::is(t), k);
    sums::lemma_total_one(full_threats::threat_at(sq, from, k), sums::is(t));
}

proof fn lemma_pieces_counted(sq: Seq<u8>, pc: int, t: types::Threat)
    requires
        board::valid_squares(sq),
        pc % 8 != PAWN,
    ensures
        sums::total(full_threats::piece_threats(sq, pc), sums::is(t)) == (if t.pc == pc {
            standing(sq, t)
        } else {
            0
        }),
{
    let p = full_threats::holding(sq, pc);
    let bb = board::word_of(p);
    let rec = full_threats::piece_rec(sq, pc);
    let k = t.pc_sq;
    board::lemma_word_exists(p);
    assert forall|q: int| q != k && bits::mem(bb, q) implies sums::total(
        #[trigger] rec(q),
        sums::is(t),
    ) == 0 by {
        lemma_hits_counted(sq, pc, q, t);
    }
    sums::lemma_flat_at(bb, rec, sums::is(t), k);
    if bits::mem(bb, k) {
        lemma_hits_counted(sq, pc, k, t);
    }
}

proof fn lemma_pawns_counted(sq: Seq<u8>, c: int, step: int, t: types::Threat)
    requires
        board::valid_squares(sq),
        0 <= c < 2,
    ensures
        sums::total(full_threats::pawn_threats(sq, c, step), sums::is(t)) == (if t.pc == 8 * c + 1
            && t.threatened_sq - t.pc_sq == step {
            standing(sq, t)
        } else {
            0
        }),
{
    let p = full_threats::pawn_targets(sq, c, step);
    let bb = board::word_of(p);
    let rec = full_threats::pawn_rec(sq, step);
    let k = t.threatened_sq;
    board::lemma_word_exists(p);
    assert forall|q: int| q != k && bits::mem(bb, q) implies sums::total(
        #[trigger] rec(q),
        sums::is(t),
    ) == 0 by {
        sums::lemma_total_one(full_threats::threat_at(sq, q - step, q), sums::is(t));
    }
    sums::lemma_flat_at(bb, rec, sums::is(t), k);
    sums::lemma_total_one(full_threats::threat_at(sq, k - step, k), sums::is(t));
}

/// The list of the attacks of a board holds each attack that stands once, and
/// nothing else.
pub proof fn law_active_threats(sq: Seq<u8>, t: types::Threat)
    requires
        board::valid_squares(sq),
    ensures
        sums::total(full_threats::active_threats(sq), sums::is(t)) == standing(sq, t),
{
    let w = sums::is(t);
    let p1 = full_threats::pawn_threats(sq, 0, 9);
    let p2 = full_threats::pawn_threats(sq, 0, 7);
    let p3 = full_threats::pawn_threats(sq, 1, -9);
    let p4 = full_threats::pawn_threats(sq, 1, -7);
    lemma_pawns_counted(sq, 0, 9, t);
    lemma_pawns_counted(sq, 0, 7, t);
    lemma_pawns_counted(sq, 1, -9, t);
    lemma_pawns_counted(sq, 1, -7, t);
    sums::lemma_total_add(p1, p2, w);
    sums::lemma_total_add(p1 + p2, p3, w);
    sums::lemma_total_add(p1 + p2 + p3, p4, w);
    lemma_color_counted(sq, 0, t);
    lemma_color_counted(sq, 1, t);
    let pawns = full_threats::all_pawn_threats(sq);
    let white = full_threats::color_threats(sq, 0);
    sums::lemma_total_add(pawns, white, w);
    sums::lemma_total_add(pawns + white, full_threats::color_threats(sq, 1), w);
}

proof fn lemma_color_counted(sq: Seq<u8>, c: int, t: types::Threat)
    requires
        board::valid_squares(sq),
        0 <= c < 2,
    ensures
        sums::total(full_threats::color_threats(sq, c), sums::is(t)) == (if 8 * c + 2 <= t.pc <= 8
            * c + 5 {
            standing(sq, t)
        } else {
            0
        }),
{
    let w = sums::is(t);
    let a = full_threats::piece_threats(sq, 8 * c + 2);
    let b = full_threats::piece_threats(sq, 8 * c + 3);
    let d = full_threats::piece_threats(sq, 8 * c + 4);
    let e = full_threats::piece_threats(sq, 8 * c + 5);
    lemma_pieces_counted(sq, 8 * c + 2, t);
    lemma_pieces_counted(sq, 8 * c + 3, t);
    lemma_pieces_counted(sq, 8 * c + 4, t);
    lemma_pieces_counted(sq, 8 * c + 5, t);
    sums::lemma_total_add(a, b, w);
    sums::lemma_total_add(a + b, d, w);
    sums::lemma_total_add(a + b + d, e, w);
}

/// The made attacks less the ended ones are what the records come to.
proof fn lemma_changed(l: Seq<DirtyThreat>, t: types::Threat)
    ensures
        sums::total(full_threats::changed(l, true), sums::is(t)) - sums::total(
            full_threats::changed(l, false),
            sums::is(t),
        ) == sums::total(l, net_of(t)),
    decreases l.len(),
{
    if l.len() > 0 {
        let r = l.last();
        lemma_changed(l.drop_last(), t);
        sums::lemma_total_one(r.threat(), sums::is(t));
        let one = seq![r.threat()];
        let none = Seq::<types::Threat>::empty();
        let m = full_threats::changed(l.drop_last(), true);
        let e = full_threats::changed(l.drop_last(), false);
        sums::lemma_total_add(m, one, sums::is(t));
        sums::lemma_total_add(e, one, sums::is(t));
        assert(m + none =~= m);
        assert(e + none =~= e);
    }
}

/// The attacks of the board after a move, with those that the move ended,
/// weigh as much as the attacks before it with those that it made.
pub proof fn law_threats_balance(
    sq: Seq<u8>,
    m: RawMove,
    us: Color,
    w: spec_fn(types::Threat) -> int,
)
    requires
        board::valid_squares(sq),
        board::playable(sq, m, us),
        regular(sq, m),
    ensures
        sums::total(full_threats::active_threats(board::played(sq, m, us)), w) + sums::total(
            full_threats::changed(board::move_records(sq, m, us), false),
            w,
        ) == sums::total(full_threats::active_threats(sq), w) + sums::total(
            full_threats::changed(board::move_records(sq, m, us), true),
            w,
        ),
{
    let next = board::played(sq, m, us);
    let l = board::move_records(sq, m, us);
    let a = full_threats::active_threats(next);
    let b = full_threats::active_threats(sq);
    let made = full_threats::changed(l, true);
    let ended = full_threats::changed(l, false);
    assert forall|t: types::Threat| #[trigger]
        sums::total(a + ended, sums::is(t)) == sums::total(b + made, sums::is(t)) by {
        law_move_records(sq, m, us, t);
        law_active_threats(next, t);
        law_active_threats(sq, t);
        lemma_changed(l, t);
        sums::lemma_total_add(a, ended, sums::is(t));
        sums::lemma_total_add(b, made, sums::is(t));
    }
    sums::lemma_same_counts(a + ended, b + made, w);
    sums::lemma_total_add(a, ended, w);
    sums::lemma_total_add(b, made, w);
}

// --- pairs of pawns -----------------------------------------------------------------------

/// The pawns of a colour.
pub open spec fn pawns_of(white: u64, black: u64, c: Color) -> u64 {
    match c {
        Color::White => white,
        Color::Black => black,
    }
}

/// The pair `p` stands on the board with the given pawns.
pub open spec fn paired(white: u64, black: u64, p: pp_3wide::Pair) -> bool {
    &&& p.a < p.b
    &&& bits::mem(pawns_of(white, black, p.ca), p.a)
    &&& bits::mem(pawns_of(white, black, p.cb), p.b)
    &&& attacks::pairs(p.a, p.b)
}

/// Pawns on ranks 2 to 7, at most one to a square.
pub open spec fn pawn_words(white: u64, black: u64) -> bool {
    &&& pp_3wide::pawn_ranks(white)
    &&& pp_3wide::pawn_ranks(black)
    &&& forall|s: int| !(#[trigger] bits::mem(white, s) && bits::mem(black, s))
}

/// The other square of a pair.
pub open spec fn other_of(p: pp_3wide::Pair, a: int) -> int {
    if p.a == a {
        p.b
    } else {
        p.a
    }
}

proof fn lemma_partners_counted(
    c: Color,
    a: int,
    d: Color,
    q: spec_fn(int) -> bool,
    p: pp_3wide::Pair,
)
    ensures
        sums::total(
            bits::flat(board::word_of(q), pp_3wide::partner_rec(c, a, d)),
            sums::is(p),
        ) == (if geometry::on_board(other_of(p, a)) && q(other_of(p, a)) && pp_3wide::pair(
            c,
            a,
            d,
            other_of(p, a),
        ) == p {
            1int
        } else {
            0
        }),
{
    let bb = board::word_of(q);
    let rec = pp_3wide::partner_rec(c, a, d);
    let k = other_of(p, a);
    board::lemma_word_exists(q);
    assert forall|t: int| t != k && bits::mem(bb, t) implies sums::total(
        #[trigger] rec(t),
        sums::is(p),
    ) == 0 by {
        sums::lemma_total_one(pp_3wide::pair(c, a, d, t), sums::is(p));
    }
    sums::lemma_flat_at(bb, rec, sums::is(p), k);
    sums::lemma_total_one(pp_3wide::pair(c, a, d, k), sums::is(p));
}

/// The list of the pairs of pawns holds each pair that stands once, and nothing
/// else.
#[verifier::spinoff_prover]
#[verifier::rlimit(40)]
pub proof fn law_active_pairs(white: u64, black: u64, p: pp_3wide::Pair)
    requires
        pawn_words(white, black),
    ensures
        sums::total(pp_3wide::active_pairs(white, black), sums::is(p)) == (if paired(
            white,
            black,
            p,
        ) {
            1int
        } else {
            0
        }),
{
    let w = sums::is(p);
    let wrec = pp_3wide::white_rec(white, black);
    let brec = pp_3wide::black_rec(black);
    let kw = if p.ca == Color::White {
        p.a
    } else {
        p.b
    };
    assert forall|a: int| bits::mem(white, a) implies sums::total(#[trigger] wrec(a), w) == (if a
        == kw && paired(white, black, p) && (p.ca == Color::White || p.cb == Color::White) {
        1int
    } else {
        0
    }) by {
        lemma_partners_counted(
            Color::White,
            a,
            Color::White,
            pp_3wide::partners(white, a, true),
            p,
        );
        lemma_partners_counted(
            Color::White,
            a,
            Color::Black,
            pp_3wide::partners(black, a, false),
            p,
        );
        sums::lemma_total_add(
            pp_3wide::pairs_with(Color::White, a, Color::White, white, true),
            pp_3wide::pairs_with(Color::White, a, Color::Black, black, false),
            w,
        );
    }
    sums::lemma_flat_at(white, wrec, w, kw);
    assert forall|a: int| bits::mem(black, a) implies sums::total(#[trigger] brec(a), w) == (if a
        == p.a && paired(white, black, p) && p.ca == Color::Black && p.cb == Color::Black {
        1int
    } else {
        0
    }) by {
        lemma_partners_counted(
            Color::Black,
            a,
            Color::Black,
            pp_3wide::partners(black, a, true),
            p,
        );
    }
    sums::lemma_flat_at(black, brec, w, p.a);
    sums::lemma_total_add(bits::flat(white, wrec), bits::flat(black, brec), w);
}

/// The list of changed pairs holds each pair with a changed member once, and
/// nothing else.
#[verifier::spinoff_prover]
#[verifier::rlimit(40)]
proof fn lemma_changed_pairs(updated: u64, white: u64, black: u64, p: pp_3wide::Pair)
    requires
        pawn_words(white, black),
        forall|t: int| #[trigger]
            bits::mem(updated, t) ==> bits::mem(white, t) || bits::mem(black, t),
    ensures
        sums::total(pp_3wide::changed_pairs(updated, white, black), sums::is(p)) == (if paired(
            white,
            black,
            p,
        ) && (bits::mem(updated, p.a) || bits::mem(updated, p.b)) {
            1int
        } else {
            0
        }),
{
    let w = sums::is(p);
    let rec = pp_3wide::changed_rec(updated, white, black);
    let k = if bits::mem(updated, p.a) {
        p.a
    } else {
        p.b
    };
    assert forall|a: int| bits::mem(updated, a) implies sums::total(#[trigger] rec(a), w) == (if a
        == k && paired(white, black, p) {
        1int
    } else {
        0
    }) by {
        let c = pp_3wide::color_at(black, a);
        lemma_partners_counted(
            c,
            a,
            Color::Black,
            pp_3wide::new_partners(black, updated, a),
            p,
        );
        lemma_partners_counted(
            c,
            a,
            Color::White,
            pp_3wide::new_partners(white, updated, a),
            p,
        );
        sums::lemma_total_add(
            bits::flat(
                board::word_of(pp_3wide::new_partners(black, updated, a)),
                pp_3wide::partner_rec(c, a, Color::Black),
            ),
            bits::flat(
                board::word_of(pp_3wide::new_partners(white, updated, a)),
                pp_3wide::partner_rec(c, a, Color::White),
            ),
            w,
        );
    }
    sums::lemma_flat_at(updated, rec, w, k);
}

/// The pairs after a change of the pawns, with those that it ended, weigh as
/// much as the pairs before it with those that it made.
pub proof fn law_pairs_balance(
    w0: u64,
    b0: u64,
    w1: u64,
    b1: u64,
    w: spec_fn(pp_3wide::Pair) -> int,
)
    requires
        pawn_words(w0, b0),
        pawn_words(w1, b1),
    ensures
        sums::total(pp_3wide::active_pairs(w1, b1), w) + sums::total(
            pp_3wide::changed_pairs(pp_3wide::fresh(w1, b1, w0, b0), w0, b0),
            w,
        ) == sums::total(pp_3wide::active_pairs(w0, b0), w) + sums::total(
            pp_3wide::changed_pairs(pp_3wide::fresh(w0, b0, w1, b1), w1, b1),
            w,
        ),
{
    let a = pp_3wide::active_pairs(w1, b1);
    let b = pp_3wide::active_pairs(w0, b0);
    let f0 = pp_3wide::fresh(w1, b1, w0, b0);
    let f1 = pp_3wide::fresh(w0, b0, w1, b1);
    let ended = pp_3wide::changed_pairs(f0, w0, b0);
    let made = pp_3wide::changed_pairs(f1, w1, b1);
    pp_3wide::lemma_fresh(w1, b1, w0, b0);
    pp_3wide::lemma_fresh(w0, b0, w1, b1);
    assert forall|p: pp_3wide::Pair| #[trigger]
        sums::total(a + ended, sums::is(p)) == sums::total(b + made, sums::is(p)) by {
        law_active_pairs(w1, b1, p);
        law_active_pairs(w0, b0, p);
        lemma_changed_pairs(f0, w0, b0, p);
        lemma_changed_pairs(f1, w1, b1, p);
        sums::lemma_total_add(a, ended, sums::is(p));
        sums::lemma_total_add(b, made, sums::is(p));
    }
    sums::lemma_same_counts(a + ended, b + made, w);
    sums::lemma_total_add(a, ended, w);
    sums::lemma_total_add(b, made, w);
}

/// The list of the pairs that a change of the pawns makes holds each pair that
/// stands after it and did not stand before it once, and nothing else.
pub proof fn law_changed_pairs(w0: u64, b0: u64, w1: u64, b1: u64, p: pp_3wide::Pair)
    requires
        pawn_words(w0, b0),
        pawn_words(w1, b1),
    ensures
        sums::total(
            pp_3wide::changed_pairs(pp_3wide::fresh(w0, b0, w1, b1), w1, b1),
            sums::is(p),
        ) == (if paired(w1, b1, p) && !paired(w0, b0, p) {
            1int
        } else {
            0
        }),
{
    pp_3wide::lemma_fresh(w0, b0, w1, b1);
    lemma_changed_pairs(pp_3wide::fresh(w0, b0, w1, b1), w1, b1, p);
}

/// A list holds just the pairs with a property, each once.
spec fn lists(ps: Seq<pp_3wide::Pair>, q: spec_fn(pp_3wide::Pair) -> bool) -> bool {
    forall|p: pp_3wide::Pair| #[trigger]
        sums::total(ps, sums::is(p)) == (if q(p) {
            1int
        } else {
            0
        })
}

/// A pair of pawns on ranks 2 to 7, the lower square first.
spec fn proper(p: pp_3wide::Pair) -> bool {
    8 <= p.a < p.b <= 55
}

proof fn lemma_features_apart(perspective: Color, ksq: int, p: pp_3wide::Pair, q: pp_3wide::Pair)
    requires
        0 <= ksq < 64,
        proper(p),
        proper(q),
        pp_3wide::number(perspective, ksq)(p) == pp_3wide::number(perspective, ksq)(q),
    ensures
        p == q,
{
    pp_3wide::lemma_index_range(perspective, p.ca, p.a, p.b, p.cb, ksq);
    pp_3wide::lemma_index_range(perspective, q.ca, q.a, q.b, q.cb, ksq);
    pp_3wide::law_pairs_differ(
        perspective,
        ksq,
        p.ca,
        p.a,
        p.cb,
        p.b,
        q.ca,
        q.a,
        q.cb,
        q.b,
    );
}

proof fn lemma_listed(
    perspective: Color,
    ksq: int,
    ps: Seq<pp_3wide::Pair>,
    q: spec_fn(pp_3wide::Pair) -> bool,
)
    requires
        0 <= ksq < 64,
        lists(ps, q),
        forall|p: pp_3wide::Pair| #[trigger] q(p) ==> proper(p),
    ensures
        pp_3wide::numbered(perspective, ksq, ps).no_duplicates(),
        forall|p: pp_3wide::Pair|
            proper(p) ==> (q(p) <==> pp_3wide::numbered(perspective, ksq, ps).contains(
                #[trigger] pp_3wide::number(perspective, ksq)(p),
            )),
        forall|i: u16| #[trigger]
            pp_3wide::numbered(perspective, ksq, ps).contains(i) ==> exists|p: pp_3wide::Pair|
                #[trigger] q(p) && pp_3wide::number(perspective, ksq)(p) == i,
{
    let num = pp_3wide::number(perspective, ksq);
    let l = pp_3wide::numbered(perspective, ksq, ps);
    assert forall|i: int| 0 <= i < ps.len() implies q(#[trigger] ps[i]) by {
        sums::lemma_occurs(ps, ps[i]);
        assert(sums::total(ps, sums::is(ps[i])) > 0);
    }
    assert forall|i: int, j: int| 0 <= i < j < l.len() implies l[i] != l[j] by {
        if l[i] == l[j] {
            let p = ps[i];
            assert(q(ps[i]) && q(ps[j]));
            lemma_features_apart(perspective, ksq, ps[i], ps[j]);
            sums::lemma_total_remove(ps, i, sums::is(p));
            let r = ps.remove(i);
            assert(r[j - 1] == p);
            sums::lemma_occurs(r, p);
            assert(sums::total(ps, sums::is(p)) <= 1);
        }
    }
    assert forall|p: pp_3wide::Pair| proper(p) implies (q(p) <==> l.contains(
        #[trigger] num(p),
    )) by {
        sums::lemma_occurs(ps, p);
        assert(sums::total(ps, sums::is(p)) == (if q(p) {
            1int
        } else {
            0
        }));
        if q(p) {
            let i = choose|i: int| 0 <= i < ps.len() && #[trigger] ps[i] == p;
            assert(l[i] == num(p));
        }
        if l.contains(num(p)) {
            let i = choose|i: int| 0 <= i < l.len() && l[i] == num(p);
            assert(q(ps[i]));
            lemma_features_apart(perspective, ksq, ps[i], p);
        }
    }
    assert forall|i: u16| #[trigger] l.contains(i) implies exists|p: pp_3wide::Pair| #[trigger]
        q(p) && num(p) == i by {
        let k = choose|k: int| 0 <= k < l.len() && l[k] == i;
        assert(q(ps[k]) && num(ps[k]) == i);
    }
}

/// The features of the pairs that a change of the pawns makes are those of the
/// pawns after it that the pawns before it do not have, each once. Where nothing
/// changes there are none.
pub proof fn law_changed_indices(
    perspective: Color,
    ksq: int,
    w0: u64,
    b0: u64,
    w1: u64,
    b1: u64,
)
    requires
        0 <= ksq < 64,
        pawn_words(w0, b0),
        pawn_words(w1, b1),
    ensures
        ({
            let before = pp_3wide::numbered(perspective, ksq, pp_3wide::active_pairs(w0, b0));
            let after = pp_3wide::numbered(perspective, ksq, pp_3wide::active_pairs(w1, b1));
            let made = pp_3wide::numbered(
                perspective,
                ksq,
                pp_3wide::changed_pairs(pp_3wide::fresh(w0, b0, w1, b1), w1, b1),
            );
            &&& made.no_duplicates()
            &&& forall|i: u16| #[trigger]
                made.contains(i) <==> after.contains(i) && !before.contains(i)
            &&& w0 == w1 && b0 == b1 ==> made.len() == 0
        }),
{
    let num = pp_3wide::number(perspective, ksq);
    let old_pairs = pp_3wide::active_pairs(w0, b0);
    let new_pairs = pp_3wide::active_pairs(w1, b1);
    let changed = pp_3wide::changed_pairs(pp_3wide::fresh(w0, b0, w1, b1), w1, b1);
    let q0 = |p: pp_3wide::Pair| paired(w0, b0, p);
    let q1 = |p: pp_3wide::Pair| paired(w1, b1, p);
    let qm = |p: pp_3wide::Pair| paired(w1, b1, p) && !paired(w0, b0, p);
    assert(lists(old_pairs, q0)) by {
        assert forall|p: pp_3wide::Pair| #[trigger]
            sums::total(old_pairs, sums::is(p)) == (if q0(p) {
                1int
            } else {
                0
            }) by {
            law_active_pairs(w0, b0, p);
        }
    }
    assert(lists(new_pairs, q1)) by {
        assert forall|p: pp_3wide::Pair| #[trigger]
            sums::total(new_pairs, sums::is(p)) == (if q1(p) {
                1int
            } else {
                0
            }) by {
            law_active_pairs(w1, b1, p);
        }
    }
    assert(lists(changed, qm)) by {
        assert forall|p: pp_3wide::Pair| #[trigger]
            sums::total(changed, sums::is(p)) == (if qm(p) {
                1int
            } else {
                0
            }) by {
            law_changed_pairs(w0, b0, w1, b1, p);
        }
    }
    assert forall|p: pp_3wide::Pair| #[trigger] q0(p) implies proper(p) by {}
    assert forall|p: pp_3wide::Pair| #[trigger] q1(p) implies proper(p) by {}
    assert forall|p: pp_3wide::Pair| #[trigger] qm(p) implies proper(p) by {}
    lemma_listed(perspective, ksq, old_pairs, q0);
    lemma_listed(perspective, ksq, new_pairs, q1);
    lemma_listed(perspective, ksq, changed, qm);
    let before = pp_3wide::numbered(perspective, ksq, old_pairs);
    let after = pp_3wide::numbered(perspective, ksq, new_pairs);
    let made = pp_3wide::numbered(perspective, ksq, changed);
    assert forall|i: u16| #[trigger] made.contains(i) <==> after.contains(i) && !before.contains(
        i,
    ) by {
        if made.contains(i) {
            let p = choose|p: pp_3wide::Pair| #[trigger] qm(p) && num(p) == i;
            assert(q1(p) && !q0(p) && proper(p));
            assert(after.contains(num(p)) && !before.contains(num(p)));
        }
        if after.contains(i) && !before.contains(i) {
            let p = choose|p: pp_3wide::Pair| #[trigger] q1(p) && num(p) == i;
            assert(proper(p));
            assert(!before.contains(num(p)));
            assert(qm(p));
            assert(made.contains(num(p)));
        }
    }
    if w0 == w1 && b0 == b1 && made.len() > 0 {
        assert(made.contains(made[0]));
    }
}

// --- pieces ------------------------------------------------------------------------------------

/// What the piece `v` on `s` weighs.
pub open spec fn piece_weight(
    perspective: Color,
    ksq: int,
    w: spec_fn(u16) -> int,
    s: int,
    v: u8,
) -> int {
    if v == 0 {
        0
    } else {
        w(half_ka_v2_hm::index(perspective, s, v as int, ksq) as u16)
    }
}

/// What each square of a board weighs.
pub open spec fn square_weights(
    perspective: Color,
    ksq: int,
    w: spec_fn(u16) -> int,
    sq: Seq<u8>,
) -> spec_fn(int) -> int {
    |s: int| piece_weight(perspective, ksq, w, s, sq[s])
}

/// The features of the pieces weigh what the squares weigh.
pub proof fn lemma_pieces_weigh(perspective: Color, ksq: int, w: spec_fn(u16) -> int, sq: Seq<u8>)
    ensures
        sums::total(half_ka_v2_hm::active(perspective, sq, ksq), w) == sums::ranged(
            64,
            square_weights(perspective, ksq, w, sq),
        ),
{
    let p = half_ka_v2_hm::occupied(sq);
    let bb = board::word_of(p);
    let rec = half_ka_v2_hm::square_rec(perspective, sq, ksq);
    board::lemma_word_exists(p);
    sums::lemma_flat_total(bb, rec, w);
    let g = sums::part(bb, rec, w);
    let h = square_weights(perspective, ksq, w, sq);
    assert forall|s: int| 0 <= s < 64 implies #[trigger] g(s) == h(s) by {
        sums::lemma_total_one(
            half_ka_v2_hm::index(perspective, s, sq[s] as int, ksq) as u16,
            w,
        );
    }
    sums::lemma_ranged_same(64, g, h);
}

proof fn lemma_piece_changes(
    perspective: Color,
    ksq: int,
    w: spec_fn(u16) -> int,
    sq: Seq<u8>,
    s: int,
    v: u8,
)
    requires
        sq.len() == 64,
        0 <= s < 64,
    ensures
        sums::ranged(64, square_weights(perspective, ksq, w, sq.update(s, v))) == sums::ranged(
            64,
            square_weights(perspective, ksq, w, sq),
        ) + piece_weight(perspective, ksq, w, s, v) - piece_weight(perspective, ksq, w, s, sq[s]),
{
    sums::lemma_ranged_point(
        64,
        square_weights(perspective, ksq, w, sq.update(s, v)),
        square_weights(perspective, ksq, w, sq),
        s,
    );
}

/// The pieces after a move, with those that it took away, weigh as much as the
/// pieces before it with those that it brought.
pub proof fn law_pieces_balance(
    sq: Seq<u8>,
    m: RawMove,
    us: Color,
    perspective: Color,
    ksq: int,
    w: spec_fn(u16) -> int,
)
    requires
        board::valid_squares(sq),
        board::playable(sq, m, us),
    ensures
        sums::total(half_ka_v2_hm::active(perspective, board::played(sq, m, us), ksq), w)
            + sums::total(
            half_ka_v2_hm::removed_by(perspective, ksq, board::dirty_piece_of(sq, m, us)),
            w,
        ) == sums::total(half_ka_v2_hm::active(perspective, sq, ksq), w) + sums::total(
            half_ka_v2_hm::added_by(perspective, ksq, board::dirty_piece_of(sq, m, us)),
            w,
        ),
{
    let from = m.from_sq();
    let to = m.to_sq();
    let next = board::played(sq, m, us);
    let dp = board::dirty_piece_of(sq, m, us);
    lemma_pieces_weigh(perspective, ksq, w, sq);
    lemma_pieces_weigh(perspective, ksq, w, next);
    lemma_diff_weighs(perspective, ksq, w, dp);
    if m.kind_spec() == CASTLE {
        let (kto, rto) = board::castle_to(from, to, us);
        let king = (8 * us.index() + KING) as u8;
        let rook = (8 * us.index() + ROOK) as u8;
        let s1 = sq.update(from, 0);
        let s2 = s1.update(to, 0);
        let s3 = s2.update(kto, king);
        lemma_piece_changes(perspective, ksq, w, sq, from, 0);
        lemma_piece_changes(perspective, ksq, w, s1, to, 0);
        lemma_piece_changes(perspective, ksq, w, s2, kto, king);
        lemma_piece_changes(perspective, ksq, w, s3, rto, rook);
    } else if m.kind_spec() == EN_PASSANT {
        let cap = board::passed_pawn(to, us);
        let s1 = sq.update(cap, 0);
        let s2 = s1.update(from, 0);
        lemma_piece_changes(perspective, ksq, w, sq, cap, 0);
        lemma_piece_changes(perspective, ksq, w, s1, from, 0);
        lemma_piece_changes(perspective, ksq, w, s2, to, sq[from]);
    } else {
        let s1 = sq.update(from, 0);
        lemma_piece_changes(perspective, ksq, w, sq, from, 0);
        lemma_piece_changes(perspective, ksq, w, s1, to, board::arriving(sq, m, us));
    }
}

proof fn lemma_diff_weighs(
    perspective: Color,
    ksq: int,
    w: spec_fn(u16) -> int,
    dp: DirtyPiece,
)
    ensures
        sums::total(half_ka_v2_hm::removed_by(perspective, ksq, dp), w) == w(
            half_ka_v2_hm::index(perspective, dp.from as int, dp.pc as int, ksq) as u16,
        ) + (if dp.remove_sq != SQ_NONE {
            w(half_ka_v2_hm::index(perspective, dp.remove_sq as int, dp.remove_pc as int, ksq) as u16)
        } else {
            0
        }),
        sums::total(half_ka_v2_hm::added_by(perspective, ksq, dp), w) == (if dp.to != SQ_NONE {
            w(half_ka_v2_hm::index(perspective, dp.to as int, dp.pc as int, ksq) as u16)
        } else {
            0
        }) + (if dp.add_sq != SQ_NONE {
            w(half_ka_v2_hm::index(perspective, dp.add_sq as int, dp.add_pc as int, ksq) as u16)
        } else {
            0
        }),
{
    let a = half_ka_v2_hm::index(perspective, dp.from as int, dp.pc as int, ksq) as u16;
    let b = half_ka_v2_hm::index(perspective, dp.remove_sq as int, dp.remove_pc as int, ksq) as u16;
    let c = half_ka_v2_hm::index(perspective, dp.to as int, dp.pc as int, ksq) as u16;
    let d = half_ka_v2_hm::index(perspective, dp.add_sq as int, dp.add_pc as int, ksq) as u16;
    let none = Seq::<u16>::empty();
    sums::lemma_total_one(a, w);
    sums::lemma_total_one(b, w);
    sums::lemma_total_one(c, w);
    sums::lemma_total_one(d, w);
    sums::lemma_total_add(seq![a], seq![b], w);
    sums::lemma_total_add(seq![a], none, w);
    sums::lemma_total_add(seq![c], seq![d], w);
    sums::lemma_total_add(seq![c], none, w);
    sums::lemma_total_add(none, seq![d], w);
    sums::lemma_total_add(none, none, w);
}

} // verus!
