//! How many changes one move can report: the lists that hold them never
//! overflow.
use vstd::prelude::*;
use crate::bits;
use crate::nnue::balance;
use crate::nnue::board;
use crate::nnue::features::pp_3wide;
use crate::nnue::geometry;
use crate::nnue::types::{Color, DirtyThreat, KING, KNIGHT, PAWN, ROOK};
use crate::nnue::types;
use crate::types::{RawMove, CASTLE, EN_PASSANT};

verus! {

/// -1, 0 or 1.
pub open spec fn sign(x: int) -> int {
    if x < 0 {
        -1
    } else if x > 0 {
        1
    } else {
        0
    }
}

/// The number of the direction from `s` to an aligned square.
pub open spec fn heading(s: int) -> spec_fn(int) -> int {
    |t: int|
        {
            let h = 3 * (sign(geometry::fl(t) - geometry::fl(s)) + 1) + sign(
                geometry::rk(t) - geometry::rk(s),
            ) + 1;
            if h > 4 {
                h - 1
            } else {
                h
            }
        }
}

/// The number of a knight's move from `s`.
pub open spec fn leap(s: int) -> spec_fn(int) -> int {
    |t: int|
        {
            let df = geometry::fl(t) - geometry::fl(s);
            let dr = geometry::rk(t) - geometry::rk(s);
            (if df > 0 {
                4int
            } else {
                0
            }) + (if dr > 0 {
                2int
            } else {
                0
            }) + (if df == 2 || df == -2 {
                1int
            } else {
                0
            })
        }
}

/// The number of a square diagonally next to `s`.
pub open spec fn corner(s: int) -> spec_fn(int) -> int {
    |t: int|
        (if geometry::fl(t) > geometry::fl(s) {
            1int
        } else {
            0
        }) + (if geometry::rk(t) > geometry::rk(s) {
            2int
        } else {
            0
        })
}

/// Of two squares in one direction, the nearer one stands in the way of the
/// farther one.
proof fn lemma_heading(s: int, a: int, b: int)
    requires
        geometry::straight(s, a) || geometry::diagonal(s, a),
        geometry::straight(s, b) || geometry::diagonal(s, b),
        heading(s)(a) == heading(s)(b),
        a != b,
    ensures
        geometry::between(s, a, b) || geometry::between(s, b, a),
{
}

proof fn lemma_heading_range(s: int, a: int)
    requires
        geometry::straight(s, a) || geometry::diagonal(s, a),
    ensures
        0 <= heading(s)(a) < 8,
{
}

proof fn lemma_leap(s: int, a: int, b: int)
    requires
        geometry::knight_step(s, a),
        geometry::knight_step(s, b),
    ensures
        0 <= leap(s)(a) < 8,
        leap(s)(a) == leap(s)(b) ==> a == b,
{
}

proof fn lemma_corner(s: int, a: int, b: int)
    requires
        geometry::pawn_step(0, s, a) || geometry::pawn_step(1, s, a),
        geometry::pawn_step(0, s, b) || geometry::pawn_step(1, s, b),
    ensures
        0 <= corner(s)(a) < 4,
        corner(s)(a) == corner(s)(b) ==> a == b,
        geometry::pawn_step(0, s, a) && geometry::pawn_step(0, s, b) ==> 2 <= corner(s)(a) < 4,
        geometry::pawn_step(1, s, a) && geometry::pawn_step(1, s, b) ==> 0 <= corner(s)(a) < 2,
{
}

/// Occupied squares that `s` sees along open lines: one in each direction.
proof fn lemma_seen(sq: Seq<u8>, s: int, bb: u64)
    requires
        0 <= s < 64,
        forall|t: int| #[trigger]
            bits::mem(bb, t) ==> (geometry::straight(s, t) || geometry::diagonal(s, t)) && (
            board::open_line(sq, s, t) || board::open_line(sq, t, s)) && sq[t] != 0,
    ensures
        bits::ones(bb) <= 8,
{
    let f = heading(s);
    assert forall|t: int| #[trigger] bits::mem(bb, t) implies 0 <= f(t) < 8 by {
        lemma_heading_range(s, t);
    }
    assert forall|a: int, b: int|
        #![trigger bits::mem(bb, a), bits::mem(bb, b)]
        bits::mem(bb, a) && bits::mem(bb, b) && f(a) == f(b) implies a == b by {
        if a != b {
            lemma_heading(s, a, b);
            board::lemma_open_line_sym(sq, s, a);
            board::lemma_open_line_sym(sq, s, b);
            if geometry::between(s, a, b) {
                assert(sq[a] == 0);
            } else {
                assert(sq[b] == 0);
            }
        }
    }
    bits::lemma_ones_numbered(bb, f, 8);
}

proof fn lemma_leaps(s: int, bb: u64)
    requires
        forall|t: int| #[trigger] bits::mem(bb, t) ==> geometry::knight_step(s, t),
    ensures
        bits::ones(bb) <= 8,
{
    let f = leap(s);
    assert forall|t: int| #[trigger] bits::mem(bb, t) implies 0 <= f(t) < 8 by {
        lemma_leap(s, t, t);
    }
    assert forall|a: int, b: int|
        #![trigger bits::mem(bb, a), bits::mem(bb, b)]
        bits::mem(bb, a) && bits::mem(bb, b) && f(a) == f(b) implies a == b by {
        lemma_leap(s, a, b);
    }
    bits::lemma_ones_numbered(bb, f, 8);
}

proof fn lemma_corners(s: int, bb: u64)
    requires
        forall|t: int| #[trigger]
            bits::mem(bb, t) ==> geometry::pawn_step(0, s, t) || geometry::pawn_step(1, s, t),
    ensures
        bits::ones(bb) <= 4,
        (forall|t: int| #[trigger] bits::mem(bb, t) ==> geometry::pawn_step(0, s, t))
            ==> bits::ones(bb) <= 2,
        (forall|t: int| #[trigger] bits::mem(bb, t) ==> geometry::pawn_step(1, s, t))
            ==> bits::ones(bb) <= 2,
{
    let f = corner(s);
    assert forall|t: int| #[trigger] bits::mem(bb, t) implies 0 <= f(t) < 4 by {
        lemma_corner(s, t, t);
    }
    assert forall|a: int, b: int|
        #![trigger bits::mem(bb, a), bits::mem(bb, b)]
        bits::mem(bb, a) && bits::mem(bb, b) && f(a) == f(b) implies a == b by {
        lemma_corner(s, a, b);
    }
    bits::lemma_ones_numbered(bb, f, 4);
    if forall|t: int| #[trigger] bits::mem(bb, t) ==> geometry::pawn_step(1, s, t) {
        assert forall|t: int| #[trigger] bits::mem(bb, t) implies 0 <= f(t) < 2 by {
            lemma_corner(s, t, t);
        }
        bits::lemma_ones_numbered(bb, f, 2);
    }
    if forall|t: int| #[trigger] bits::mem(bb, t) ==> geometry::pawn_step(0, s, t) {
        let g = |t: int| f(t) - 2;
        assert forall|t: int| #[trigger] bits::mem(bb, t) implies 0 <= g(t) < 2 by {
            lemma_corner(s, t, t);
        }
        assert forall|a: int, b: int|
            #![trigger bits::mem(bb, a), bits::mem(bb, b)]
            bits::mem(bb, a) && bits::mem(bb, b) && g(a) == g(b) implies a == b by {
            lemma_corner(s, a, b);
        }
        bits::lemma_ones_numbered(bb, g, 2);
    }
}

/// Two sets together have at most as many squares as they have one by one.
pub proof fn lemma_ones_either(
    p: spec_fn(int) -> bool,
    q: spec_fn(int) -> bool,
    r: spec_fn(int) -> bool,
)
    requires
        forall|t: int| 0 <= t < 64 && #[trigger] r(t) ==> p(t) || q(t),
    ensures
        bits::ones(board::word_of(r)) <= bits::ones(board::word_of(p)) + bits::ones(
            board::word_of(q),
        ),
{
    let a = board::word_of(p);
    let b = board::word_of(q);
    let c = board::word_of(r);
    board::lemma_word_exists(p);
    board::lemma_word_exists(q);
    board::lemma_word_exists(r);
    bits::lemma_ones_set(a);
    bits::lemma_ones_set(b);
    bits::lemma_ones_set(c);
    assert(bits::squares(c).subset_of(bits::squares(a) + bits::squares(b))) by {
        assert forall|t: int| bits::squares(c).contains(t) implies (bits::squares(a)
            + bits::squares(b)).contains(t) by {
            assert(bits::mem(c, t));
            assert(r(t));
        }
    }
    vstd::set_lib::lemma_len_union(bits::squares(a), bits::squares(b));
    vstd::set_lib::lemma_len_subset(bits::squares(c), bits::squares(a) + bits::squares(b));
}

/// A piece has at most eight targets, a pawn two.
pub proof fn lemma_targets(sq: Seq<u8>, pc: int, s: int)
    requires
        board::valid_squares(sq),
        0 <= s < 64,
        types::is_piece(pc),
    ensures
        bits::ones(board::word_of(board::attacks_at(sq, pc, s))) <= 8,
        pc % 8 == PAWN ==> bits::ones(board::word_of(board::attacks_at(sq, pc, s))) <= 2,
{
    let p = board::attacks_at(sq, pc, s);
    let bb = board::word_of(p);
    board::lemma_word_exists(p);
    let pt = pc % 8;
    if pt == PAWN {
        lemma_corners(s, bb);
        if pc / 8 == 0 {
            assert(forall|t: int| #[trigger] bits::mem(bb, t) ==> geometry::pawn_step(0, s, t));
        } else {
            assert(forall|t: int| #[trigger] bits::mem(bb, t) ==> geometry::pawn_step(1, s, t));
        }
    } else if pt == KNIGHT {
        lemma_leaps(s, bb);
    } else {
        lemma_seen(sq, s, bb);
    }
}

/// At most eight sliders look at a square.
proof fn lemma_sliders(sq: Seq<u8>, s: int)
    requires
        0 <= s < 64,
    ensures
        bits::ones(board::word_of(board::sliders_to(sq, s))) <= 8,
{
    let p = board::sliders_to(sq, s);
    let bb = board::word_of(p);
    board::lemma_word_exists(p);
    assert forall|t: int| #[trigger] bits::mem(bb, t) implies (geometry::straight(s, t)
        || geometry::diagonal(s, t)) && (board::open_line(sq, s, t) || board::open_line(sq, t, s))
        && sq[t] != 0 by {
        geometry::lemma_rays(s, t);
    }
    lemma_seen(sq, s, bb);
}

/// The knights, pawns and sliders among the pieces that attack `pc` on `s`.
pub open spec fn attackers_by(sq: Seq<u8>, pc: int, s: int, kind: int) -> spec_fn(int) -> bool {
    |q: int|
        board::attacked_from(sq, pc, s, false)(q) && (if kind == 0 {
            sq[q] as int % 8 == KNIGHT
        } else if kind == 1 {
            sq[q] as int % 8 == PAWN
        } else {
            3 <= sq[q] as int % 8 <= 5
        })
}

/// At most twenty pieces attack one: eight knights, four pawns, eight sliders;
/// none of them a pawn where a pawn is attacked.
proof fn lemma_attackers(sq: Seq<u8>, pc: int, s: int, no_sliders: bool)
    requires
        board::valid_squares(sq),
        0 <= s < 64,
        types::is_piece(pc),
    ensures
        bits::ones(board::word_of(board::attacked_from(sq, pc, s, no_sliders))) <= 8 + (if pc % 8
            == PAWN {
            0int
        } else {
            4
        }) + (if no_sliders {
            0int
        } else {
            8
        }),
{
    let all = board::attacked_from(sq, pc, s, no_sliders);
    let knights = attackers_by(sq, pc, s, 0);
    let pawns = attackers_by(sq, pc, s, 1);
    let sliders = attackers_by(sq, pc, s, 2);
    let near = |q: int| knights(q) || pawns(q);
    board::lemma_word_exists(knights);
    board::lemma_word_exists(pawns);
    board::lemma_word_exists(sliders);
    let kb = board::word_of(knights);
    let pb = board::word_of(pawns);
    let sb = board::word_of(sliders);
    assert forall|t: int| #[trigger] bits::mem(kb, t) implies geometry::knight_step(s, t) by {
        assert(knights(t));
    }
    lemma_leaps(s, kb);
    assert forall|t: int| #[trigger] bits::mem(pb, t) implies geometry::pawn_step(0, s, t)
        || geometry::pawn_step(1, s, t) by {
        assert(pawns(t));
    }
    lemma_corners(s, pb);
    if pc % 8 == PAWN {
        assert forall|t: int| !bits::mem(pb, t) by {
            if bits::mem(pb, t) {
                assert(pawns(t));
            }
        }
        bits::lemma_nonzero(pb);
    }
    assert forall|t: int| #[trigger] bits::mem(sb, t) implies (geometry::straight(s, t)
        || geometry::diagonal(s, t)) && (board::open_line(sq, s, t) || board::open_line(sq, t, s))
        && sq[t] != 0 by {
        assert(sliders(t));
    }
    lemma_seen(sq, s, sb);
    lemma_ones_either(knights, pawns, near);
    assert forall|t: int| 0 <= t < 64 && #[trigger] all(t) implies near(t) || sliders(t) by {
        assert(knights(t) || pawns(t) || sliders(t));
    }
    lemma_ones_either(near, sliders, all);
    if no_sliders {
        let none = |t: int| false;
        board::lemma_word_exists(none);
        bits::lemma_nonzero(board::word_of(none));
        assert forall|t: int| 0 <= t < 64 && #[trigger] all(t) implies near(t) || none(t) by {
            assert(knights(t) || pawns(t) || sliders(t));
        }
        lemma_ones_either(near, none, all);
    }
}

/// How many records one change of the board gives rise to.
pub open spec fn most(pc: int, ray: bool) -> int {
    if pc % 8 == KING {
        if ray {
            8
        } else {
            0
        }
    } else if pc % 8 == PAWN {
        if ray {
            26
        } else {
            18
        }
    } else if ray {
        36
    } else {
        28
    }
}

/// A change of the board gives rise to a bounded number of records.
proof fn lemma_emitted_len(sq: Seq<u8>, pc: int, put: bool, s: int, ray: bool, mask: u64)
    requires
        board::valid_squares(sq),
        0 <= s < 64,
        types::is_piece(pc),
    ensures
        board::emitted(sq, pc, put, s, ray, mask).len() <= most(pc, ray),
{
    let out = board::outgoing_rec(sq, pc, put, s);
    let inc = board::incoming_rec(sq, pc, put, s);
    let tb = board::word_of(board::attacks_at(sq, pc, s));
    let ib = board::word_of(board::attacked_from(sq, pc, s, ray));
    let sb = board::word_of(board::sliders_to(sq, s));
    lemma_targets(sq, pc, s);
    lemma_attackers(sq, pc, s, ray);
    lemma_sliders(sq, s);
    bits::lemma_flat_len(tb, out, 1);
    bits::lemma_flat_len(ib, inc, 1);
    let with_direct = pc % 8 != KING;
    let rec = board::slider_rec(sq, pc, put, s, mask, with_direct);
    if with_direct {
        bits::lemma_flat_len(sb, rec, 2);
    } else {
        bits::lemma_flat_len(sb, rec, 1);
    }
}

/// A move reports at most 96 attacks, so that the list of them never
/// overflows.
#[verifier::spinoff_prover]
pub proof fn law_records_fit(sq: Seq<u8>, m: RawMove, us: Color)
    requires
        board::valid_squares(sq),
        board::playable(sq, m, us),
        balance::regular(sq, m),
    ensures
        board::move_records(sq, m, us).len() <= 96,
        bits::capped(board::move_records(sq, m, us), 96) == board::move_records(sq, m, us),
{
    let from = m.from_sq();
    let to = m.to_sq();
    let all = board::ALL_SQUARES;
    if m.kind_spec() == CASTLE {
        let (kto, rto) = board::castle_to(from, to, us);
        let king = 8 * us.index() + KING;
        let rook = 8 * us.index() + ROOK;
        let s1 = sq.update(from, 0);
        let s2 = s1.update(to, 0);
        let s3 = s2.update(kto, king as u8);
        assert(board::valid_squares(s1) && board::valid_squares(s2) && board::valid_squares(s3));
        lemma_emitted_len(s1, king, false, from, true, all);
        lemma_emitted_len(s2, rook, false, to, true, all);
        lemma_emitted_len(s2, king, true, kto, true, all);
        lemma_emitted_len(s3, rook, true, rto, true, all);
    } else if m.kind_spec() == EN_PASSANT {
        let cap = board::passed_pawn(to, us);
        let s1 = sq.update(cap, 0);
        let s2 = s1.update(from, 0);
        let both = (1u64 << (from as u64)) | (1u64 << (to as u64));
        assert(board::valid_squares(s1) && board::valid_squares(s2));
        lemma_emitted_len(s1, sq[cap] as int, false, cap, true, all);
        lemma_emitted_len(s2, sq[from] as int, false, from, true, both);
        lemma_emitted_len(s2, sq[from] as int, true, to, true, both);
    } else {
        let s1 = sq.update(from, 0);
        let s2 = s1.update(to, 0);
        let pc = board::arriving(sq, m, us) as int;
        let both = (1u64 << (from as u64)) | (1u64 << (to as u64));
        assert(board::valid_squares(s1) && board::valid_squares(s2));
        if sq[to] != 0 {
            lemma_emitted_len(s1, sq[from] as int, false, from, true, all);
            lemma_emitted_len(s2, sq[to] as int, false, to, false, all);
            lemma_emitted_len(s2, pc, true, to, false, all);
        } else if sq[from] == pc {
            lemma_emitted_len(s1, sq[from] as int, false, from, true, both);
            lemma_emitted_len(s1, sq[from] as int, true, to, true, both);
        } else {
            lemma_emitted_len(s1, sq[from] as int, false, from, true, all);
            lemma_emitted_len(s1, pc, true, to, true, all);
        }
    }
}

// --- the squares of the records ------------------------------------------------------------

/// A record of an attack between two squares of the board.
pub open spec fn on_squares() -> spec_fn(DirtyThreat) -> bool {
    |d: DirtyThreat| d.threat().pc_sq < 64 && d.threat().threatened_sq < 64
}

/// Every record is of an attack between two squares of the board.
pub open spec fn all_on_squares(l: Seq<DirtyThreat>) -> bool {
    forall|i: int| 0 <= i < l.len() ==> on_squares()(#[trigger] l[i])
}

proof fn lemma_record_on(pc: int, target: int, a: int, b: int, made: bool)
    requires
        0 <= pc < 16,
        0 <= target < 16,
        0 <= a < 64,
        0 <= b < 64,
    ensures
        on_squares()(board::record(pc, target, a, b, made)),
{
    DirtyThreat::lemma_packed(
        types::Threat { pc, threatened_pc: target, pc_sq: a, threatened_sq: b },
        made,
    );
}

proof fn lemma_both_on(a: Seq<DirtyThreat>, b: Seq<DirtyThreat>)
    requires
        all_on_squares(a),
        all_on_squares(b),
    ensures
        all_on_squares(a + b),
{
    assert forall|i: int| 0 <= i < (a + b).len() implies on_squares()(#[trigger] (a + b)[i]) by {
        if i < a.len() {
            assert((a + b)[i] == a[i]);
        } else {
            assert((a + b)[i] == b[i - a.len()]);
        }
    }
}

proof fn lemma_slider_on(
    sq: Seq<u8>,
    pc: int,
    put: bool,
    s: int,
    mask: u64,
    direct: bool,
    q: int,
)
    requires
        board::valid_squares(sq),
        0 <= s < 64,
        0 <= q < 64,
        types::is_piece(pc),
    ensures
        all_on_squares(board::slider_rec(sq, pc, put, s, mask, direct)(q)),
{
    assert(sq[q] < 16);
    lemma_record_on(sq[q] as int, pc, q, s, put);
    if exists|d: int| board::runs_over(sq, q, s, d, mask) {
        let d = choose|d: int| board::runs_over(sq, q, s, d, mask);
        assert(sq[d] < 16);
        lemma_record_on(sq[q] as int, sq[d] as int, q, d, !put);
    }
}

proof fn lemma_emitted_on(sq: Seq<u8>, pc: int, put: bool, s: int, ray: bool, mask: u64)
    requires
        board::valid_squares(sq),
        0 <= s < 64,
        types::is_piece(pc),
    ensures
        all_on_squares(board::emitted(sq, pc, put, s, ray, mask)),
{
    let p = on_squares();
    let out = board::outgoing_rec(sq, pc, put, s);
    let inc = board::incoming_rec(sq, pc, put, s);
    let with_direct = pc % 8 != KING;
    let rec = board::slider_rec(sq, pc, put, s, mask, with_direct);
    let tb = board::word_of(board::attacks_at(sq, pc, s));
    let ib = board::word_of(board::attacked_from(sq, pc, s, ray));
    let sb = board::word_of(board::sliders_to(sq, s));
    assert forall|q: int, i: int| bits::mem(tb, q) && 0 <= i < out(q).len() implies p(
        #[trigger] out(q)[i],
    ) by {
        assert(sq[q] < 16);
        lemma_record_on(pc, sq[q] as int, s, q, put);
    }
    assert forall|q: int, i: int| bits::mem(ib, q) && 0 <= i < inc(q).len() implies p(
        #[trigger] inc(q)[i],
    ) by {
        assert(sq[q] < 16);
        lemma_record_on(sq[q] as int, pc, q, s, put);
    }
    assert forall|q: int, i: int| bits::mem(sb, q) && 0 <= i < rec(q).len() implies p(
        #[trigger] rec(q)[i],
    ) by {
        lemma_slider_on(sq, pc, put, s, mask, with_direct, q);
    }
    bits::lemma_flat_all(tb, out, p);
    bits::lemma_flat_all(ib, inc, p);
    bits::lemma_flat_all(sb, rec, p);
    if with_direct {
        let none: Seq<DirtyThreat> = Seq::empty();
        let middle = if ray {
            bits::flat(sb, rec)
        } else {
            none
        };
        lemma_both_on(bits::flat(tb, out), middle);
        lemma_both_on(bits::flat(tb, out) + middle, bits::flat(ib, inc));
    }
}

/// The records of a move speak of squares of the board.
#[verifier::spinoff_prover]
pub proof fn law_records_on_board(sq: Seq<u8>, m: RawMove, us: Color)
    requires
        board::valid_squares(sq),
        board::playable(sq, m, us),
    ensures
        all_on_squares(board::move_records(sq, m, us)),
{
    let from = m.from_sq();
    let to = m.to_sq();
    let all = board::ALL_SQUARES;
    let s1 = sq.update(from, 0);
    if m.kind_spec() == CASTLE {
        let (kto, rto) = board::castle_to(from, to, us);
        let king = 8 * us.index() + KING;
        let rook = 8 * us.index() + ROOK;
        let s2 = s1.update(to, 0);
        let s3 = s2.update(kto, king as u8);
        assert(board::valid_squares(s1) && board::valid_squares(s2) && board::valid_squares(s3));
        lemma_emitted_on(s1, king, false, from, true, all);
        lemma_emitted_on(s2, rook, false, to, true, all);
        lemma_emitted_on(s2, king, true, kto, true, all);
        lemma_emitted_on(s3, rook, true, rto, true, all);
        let a = board::remove_records(sq, from);
        let b = board::remove_records(s1, to);
        let c = board::put_records(s2, king, kto);
        lemma_both_on(a, b);
        lemma_both_on(a + b, c);
        lemma_both_on(a + b + c, board::put_records(s3, rook, rto));
    } else if m.kind_spec() == EN_PASSANT {
        let cap = board::passed_pawn(to, us);
        let t1 = sq.update(cap, 0);
        let t2 = t1.update(from, 0);
        let both = (1u64 << (from as u64)) | (1u64 << (to as u64));
        let pc = sq[from] as int;
        assert(board::valid_squares(t1) && board::valid_squares(t2));
        lemma_emitted_on(t1, sq[cap] as int, false, cap, true, all);
        lemma_emitted_on(t2, pc, false, from, true, both);
        lemma_emitted_on(t2, pc, true, to, true, both);
        lemma_both_on(
            board::emitted(t2, pc, false, from, true, both),
            board::emitted(t2, pc, true, to, true, both),
        );
        lemma_both_on(board::remove_records(sq, cap), board::shift_records(t1, from, to));
    } else {
        let s2 = s1.update(to, 0);
        let pc = board::arriving(sq, m, us) as int;
        let both = (1u64 << (from as u64)) | (1u64 << (to as u64));
        assert(board::valid_squares(s1) && board::valid_squares(s2));
        assert(types::is_piece(pc)) by {
            if let Some(role) = m.promotion_spec() {
                assert(types::is_piece(8 * us.index() + role.code_spec()));
            }
        }
        lemma_emitted_on(s1, sq[from] as int, false, from, true, all);
        if sq[to] != 0 {
            lemma_emitted_on(s2, sq[to] as int, false, to, false, all);
            lemma_emitted_on(s2, pc, true, to, false, all);
            lemma_both_on(
                board::emitted(s2, sq[to] as int, false, to, false, all),
                board::emitted(s2, pc, true, to, false, all),
            );
            lemma_both_on(board::remove_records(sq, from), board::swap_records(s1, to, pc));
        } else if sq[from] == pc {
            lemma_emitted_on(s1, pc, false, from, true, both);
            lemma_emitted_on(s1, pc, true, to, true, both);
            lemma_both_on(
                board::emitted(s1, pc, false, from, true, both),
                board::emitted(s1, pc, true, to, true, both),
            );
        } else {
            lemma_emitted_on(s1, pc, true, to, true, all);
            lemma_both_on(board::remove_records(sq, from), board::put_records(s1, pc, to));
        }
    }
}

/// The number of a square within three files.
pub open spec fn near_file(a: int) -> spec_fn(int) -> int {
    |t: int| 8 * (geometry::fl(t) - geometry::fl(a) + 1) + geometry::rk(t)
}

proof fn lemma_partners(bb: u64, updated: u64, a: int)
    requires
        0 <= a < 64,
    ensures
        bits::ones(board::word_of(pp_3wide::new_partners(bb, updated, a))) <= 24,
{
    let p = pp_3wide::new_partners(bb, updated, a);
    let w = board::word_of(p);
    board::lemma_word_exists(p);
    let f = near_file(a);
    assert forall|t: int| #[trigger] bits::mem(w, t) implies 0 <= f(t) < 24 by {
        assert(p(t));
    }
    assert forall|s: int, t: int|
        #![trigger bits::mem(w, s), bits::mem(w, t)]
        bits::mem(w, s) && bits::mem(w, t) && f(s) == f(t) implies s == t by {
        assert(p(s) && p(t));
    }
    bits::lemma_ones_numbered(w, f, 24);
}

/// Changing `n` pawns changes at most 48 pairs each.
pub proof fn lemma_changed_pairs_len(updated: u64, white: u64, black: u64)
    ensures
        pp_3wide::changed_pairs(updated, white, black).len() <= 48 * bits::ones(updated),
{
    let rec = pp_3wide::changed_rec(updated, white, black);
    assert forall|q: int| bits::mem(updated, q) implies (#[trigger] rec(q)).len() <= 48 by {
        let c = pp_3wide::color_at(black, q);
        lemma_partners(black, updated, q);
        lemma_partners(white, updated, q);
        bits::lemma_flat_len(
            board::word_of(pp_3wide::new_partners(black, updated, q)),
            pp_3wide::partner_rec(c, q, Color::Black),
            1,
        );
        bits::lemma_flat_len(
            board::word_of(pp_3wide::new_partners(white, updated, q)),
            pp_3wide::partner_rec(c, q, Color::White),
            1,
        );
    }
    bits::lemma_flat_len(updated, rec, 48);
}

} // verus!
