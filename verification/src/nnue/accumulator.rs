//! The accumulator: the sums of the weights of the active features, kept up to
//! date move by move.
//!
//! A side's sums are taken anew at the root and whenever its own king moves;
//! otherwise the weights of ended features are subtracted and those of new ones
//! added. Sums wrap around, so that the order of the steps does not matter.
use vstd::prelude::*;
use crate::arith;
use crate::bits;
use crate::nnue::board::Board;
use crate::nnue::board;
use crate::nnue::features::{full_threats, half_ka_v2_hm, pp_3wide};
use crate::nnue::network::{FeatureTransformer, Network, NetworkOutput};
use crate::nnue::network;
use crate::nnue::types::{Color, DirtyPawnPairs, DirtyPiece, DirtyThreats};
use crate::nnue::types;

verus! {

/// Width of the transformed features.
pub const L1: usize = 1024;

/// Piece-count buckets of the piece-square sums.
pub const PSQT_BUCKETS: usize = 8;

/// Number of layer stacks.
pub const LAYER_STACKS: usize = 8;

/// The number of slots of a stack: one for each ply and one for the root.
pub const MAX_PLY: usize = 129;

/// The sums of one position, for each side.
#[derive(Clone, Copy, Debug)]
pub struct Accumulator {
    pub accumulation: [[i16; 1024]; 2],
    pub psqt: [[i32; 8]; 2],
    /// Whether the sums of a side hold anything yet.
    pub computed: [bool; 2],
}

/// The sum of weight `j` over piece features.
pub open spec fn psq_sum(ft: &FeatureTransformer, l: Seq<u16>, j: int) -> int
    decreases l.len(),
{
    if l.len() == 0 {
        0
    } else {
        psq_sum(ft, l.drop_last(), j) + ft.psq(l.last() as int, j)
    }
}

/// The sum of weight `j` over features of attacks and pairs.
pub open spec fn other_sum(ft: &FeatureTransformer, l: Seq<u16>, j: int) -> int
    decreases l.len(),
{
    if l.len() == 0 {
        0
    } else {
        other_sum(ft, l.drop_last(), j) + ft.other(l.last() as int, j)
    }
}

/// The sum of the shares of piece features in bucket `k`.
pub open spec fn psqt_sum(ft: &FeatureTransformer, l: Seq<u16>, k: int) -> int
    decreases l.len(),
{
    if l.len() == 0 {
        0
    } else {
        psqt_sum(ft, l.drop_last(), k) + ft.psqt(l.last() as int, k)
    }
}

/// The sum of the shares of features of attacks and pairs in bucket `k`.
pub open spec fn share_sum(ft: &FeatureTransformer, l: Seq<u16>, k: int) -> int
    decreases l.len(),
{
    if l.len() == 0 {
        0
    } else {
        share_sum(ft, l.drop_last(), k) + ft.other_share(l.last() as int, k)
    }
}

/// Every feature is below `n`.
pub open spec fn below(l: Seq<u16>, n: int) -> bool {
    forall|i: int| 0 <= i < l.len() ==> #[trigger] l[i] < n
}

/// The board has the king of `perspective`, and pawns on ranks 2 to 7 only.
pub open spec fn countable(sq: Seq<u8>, perspective: Color) -> bool {
    &&& board::king_of(sq, perspective.index()) < 64
    &&& pp_3wide::pawn_ranks(pp_3wide::pawn_word(sq, 0))
    &&& pp_3wide::pawn_ranks(pp_3wide::pawn_word(sq, 1))
}

/// The piece features of a board that an accumulator counts.
pub open spec fn psq_active(sq: Seq<u8>, perspective: Color) -> Seq<u16> {
    bits::capped(
        half_ka_v2_hm::active(perspective, sq, board::king_of(sq, perspective.index())),
        32,
    )
}

/// The features of attacks and pairs of a board that an accumulator counts.
pub open spec fn other_active(sq: Seq<u8>, perspective: Color) -> Seq<u16> {
    let ksq = board::king_of(sq, perspective.index());
    bits::capped(
        full_threats::kept(perspective, ksq, full_threats::active_threats(sq))
            + pp_3wide::numbered(
            perspective,
            ksq,
            pp_3wide::active_pairs(pp_3wide::pawn_word(sq, 0), pp_3wide::pawn_word(sq, 1)),
        ),
        256,
    )
}

/// The sums of one side: `acc` and `psqt` hold the biases plus the weights of
/// the features.
pub open spec fn holds(
    ft: &FeatureTransformer,
    acc: Seq<i16>,
    psqt: Seq<i32>,
    pieces: Seq<u16>,
    others: Seq<u16>,
) -> bool {
    &&& forall|j: int|
        0 <= j < 1024 ==> #[trigger] acc[j] == arith::wrap16(
            ft.bias(j) + psq_sum(ft, pieces, j) + other_sum(ft, others, j),
        )
    &&& forall|k: int|
        0 <= k < 8 ==> #[trigger] psqt[k] == arith::wrap32(
            psqt_sum(ft, pieces, k) + share_sum(ft, others, k),
        )
}

/// The accumulator holds the sums of the board for `perspective`.
pub open spec fn refreshed(
    ft: &FeatureTransformer,
    a: Accumulator,
    perspective: Color,
    sq: Seq<u8>,
) -> bool {
    &&& a.computed@[perspective.index()]
    &&& holds(
        ft,
        a.accumulation@[perspective.index()]@,
        a.psqt@[perspective.index()]@,
        psq_active(sq, perspective),
        other_active(sq, perspective),
    )
}

/// The sums of the other side are untouched.
pub open spec fn other_side_same(a: Accumulator, b: Accumulator, perspective: Color) -> bool {
    let q = 1 - perspective.index();
    &&& a.accumulation@[q] == b.accumulation@[q]
    &&& a.psqt@[q] == b.psqt@[q]
    &&& a.computed@[q] == b.computed@[q]
}

// --- adding up rows --------------------------------------------------------------------

/// Adds the weights of one piece feature, or subtracts them.
fn apply_psq(ft: &FeatureTransformer, idx: usize, acc: &mut [i16; 1024], minus: bool)
    requires
        ft.wf(),
        idx < network::PSQ_DIMENSIONS,
    ensures
        forall|j: int|
            0 <= j < 1024 ==> #[trigger] final(acc)@[j] == arith::wrap16(
                old(acc)@[j] + (if minus {
                    -ft.psq(idx as int, j)
                } else {
                    ft.psq(idx as int, j)
                }),
            ),
{
    let row: &[i16] = ft.weight_row(idx);
    let ghost before = acc@;
    let mut j: usize = 0;
    while j < 1024
        invariant
            j <= 1024,
            row@.len() == 1024,
            forall|k: int| 0 <= k < 1024 ==> #[trigger] row@[k] == ft.psq(idx as int, k),
            forall|k: int|
                0 <= k < j ==> #[trigger] acc@[k] == arith::wrap16(
                    before[k] + (if minus {
                        -ft.psq(idx as int, k)
                    } else {
                        ft.psq(idx as int, k)
                    }),
                ),
            forall|k: int| j <= k < 1024 ==> #[trigger] acc@[k] == before[k],
        decreases 1024 - j,
    {
        proof {
            assert(row@[j as int] == ft.psq(idx as int, j as int));
            arith::lemma_wrap16(acc@[j as int] + row@[j as int], 0);
            arith::lemma_wrap16(acc@[j as int] - row@[j as int], 0);
        }
        acc[j] = if minus {
            acc[j].wrapping_sub(row[j])
        } else {
            acc[j].wrapping_add(row[j])
        };
        j = j + 1;
    }
}

/// Adds the weights of one attack or pair feature, or subtracts them.
fn apply_other(ft: &FeatureTransformer, idx: usize, acc: &mut [i16; 1024], minus: bool)
    requires
        ft.wf(),
        idx < network::OTHER_DIMENSIONS,
    ensures
        forall|j: int|
            0 <= j < 1024 ==> #[trigger] final(acc)@[j] == arith::wrap16(
                old(acc)@[j] + (if minus {
                    -ft.other(idx as int, j)
                } else {
                    ft.other(idx as int, j)
                }),
            ),
{
    let row: &[i8] = ft.other_weight_row(idx);
    let ghost before = acc@;
    let mut j: usize = 0;
    while j < 1024
        invariant
            j <= 1024,
            row@.len() == 1024,
            forall|k: int| 0 <= k < 1024 ==> #[trigger] row@[k] == ft.other(idx as int, k),
            forall|k: int|
                0 <= k < j ==> #[trigger] acc@[k] == arith::wrap16(
                    before[k] + (if minus {
                        -ft.other(idx as int, k)
                    } else {
                        ft.other(idx as int, k)
                    }),
                ),
            forall|k: int| j <= k < 1024 ==> #[trigger] acc@[k] == before[k],
        decreases 1024 - j,
    {
        proof {
            assert(row@[j as int] == ft.other(idx as int, j as int));
            arith::lemma_wrap16(acc@[j as int] + row@[j as int], 0);
            arith::lemma_wrap16(acc@[j as int] - row@[j as int], 0);
        }
        let w: i16 = row[j] as i16;
        acc[j] = if minus {
            acc[j].wrapping_sub(w)
        } else {
            acc[j].wrapping_add(w)
        };
        j = j + 1;
    }
}

/// Adds a row of shares, or subtracts it.
fn apply_shares(row: &[i32], psqt: &mut [i32; 8], minus: bool)
    requires
        row@.len() == 8,
    ensures
        forall|k: int|
            0 <= k < 8 ==> #[trigger] final(psqt)@[k] == arith::wrap32(
                old(psqt)@[k] + (if minus {
                    -row@[k]
                } else {
                    row@[k] as int
                }),
            ),
{
    let ghost before = psqt@;
    let mut k: usize = 0;
    while k < 8
        invariant
            k <= 8,
            row@.len() == 8,
            forall|m: int|
                0 <= m < k ==> #[trigger] psqt@[m] == arith::wrap32(
                    before[m] + (if minus {
                        -row@[m]
                    } else {
                        row@[m] as int
                    }),
                ),
            forall|m: int| k <= m < 8 ==> #[trigger] psqt@[m] == before[m],
        decreases 8 - k,
    {
        proof {
            arith::lemma_wrap32(psqt@[k as int] + row@[k as int], 0);
            arith::lemma_wrap32(psqt@[k as int] - row@[k as int], 0);
        }
        psqt[k] = if minus {
            psqt[k].wrapping_sub(row[k])
        } else {
            psqt[k].wrapping_add(row[k])
        };
        k = k + 1;
    }
}

/// The factor of a sum that is added or subtracted.
pub open spec fn sign(minus: bool) -> int {
    if minus {
        -1
    } else {
        1
    }
}

/// Adds the weights of piece features, or subtracts them.
fn apply_psq_list(
    ft: &FeatureTransformer,
    list: &[u16],
    acc: &mut [i16; 1024],
    psqt: &mut [i32; 8],
    minus: bool,
)
    requires
        ft.wf(),
        below(list@, 22528),
    ensures
        forall|j: int|
            0 <= j < 1024 ==> #[trigger] final(acc)@[j] == arith::wrap16(
                old(acc)@[j] + sign(minus) * psq_sum(ft, list@, j),
            ),
        forall|k: int|
            0 <= k < 8 ==> #[trigger] final(psqt)@[k] == arith::wrap32(
                old(psqt)@[k] + sign(minus) * psqt_sum(ft, list@, k),
            ),
{
    let ghost a0 = acc@;
    let ghost p0 = psqt@;
    let mut i: usize = 0;
    proof {
        assert(list@.take(0) =~= Seq::empty());
        assert forall|j: int| 0 <= j < 1024 implies #[trigger] acc@[j] == arith::wrap16(
            a0[j] + sign(minus) * psq_sum(ft, list@.take(0), j),
        ) by {
            arith::lemma_wrap16(a0[j] as int, 0);
        }
        assert forall|k: int| 0 <= k < 8 implies #[trigger] psqt@[k] == arith::wrap32(
            p0[k] + sign(minus) * psqt_sum(ft, list@.take(0), k),
        ) by {
            arith::lemma_wrap32(p0[k] as int, 0);
        }
    }
    while i < list.len()
        invariant
            ft.wf(),
            below(list@, 22528),
            i <= list@.len(),
            forall|j: int|
                0 <= j < 1024 ==> #[trigger] acc@[j] == arith::wrap16(
                    a0[j] + sign(minus) * psq_sum(ft, list@.take(i as int), j),
                ),
            forall|k: int|
                0 <= k < 8 ==> #[trigger] psqt@[k] == arith::wrap32(
                    p0[k] + sign(minus) * psqt_sum(ft, list@.take(i as int), k),
                ),
        decreases list@.len() - i,
    {
        let idx: usize = list[i] as usize;
        let ghost head = list@.take(i as int);
        let ghost next = list@.take(i + 1);
        let ghost a1 = acc@;
        let ghost p1 = psqt@;
        assert(next.drop_last() =~= head && next.last() == list@[i as int]);
        apply_psq(ft, idx, acc, minus);
        let shares: &[i32] = ft.psqt_weight_row(idx);
        apply_shares(shares, psqt, minus);
        proof {
            assert forall|j: int| 0 <= j < 1024 implies #[trigger] acc@[j] == arith::wrap16(
                a0[j] + sign(minus) * psq_sum(ft, next, j),
            ) by {
                let w = ft.psq(idx as int, j);
                assert(a1[j] == arith::wrap16(a0[j] + sign(minus) * psq_sum(ft, head, j)));
                arith::lemma_wrap16(a0[j] + sign(minus) * psq_sum(ft, head, j), sign(minus) * w);
            }
            assert forall|k: int| 0 <= k < 8 implies #[trigger] psqt@[k] == arith::wrap32(
                p0[k] + sign(minus) * psqt_sum(ft, next, k),
            ) by {
                let w = ft.psqt(idx as int, k);
                assert(shares@[k] == w);
                assert(p1[k] == arith::wrap32(p0[k] + sign(minus) * psqt_sum(ft, head, k)));
                arith::lemma_wrap32(p0[k] + sign(minus) * psqt_sum(ft, head, k), sign(minus) * w);
            }
        }
        i = i + 1;
    }
    assert(list@.take(list@.len() as int) =~= list@);
}

/// Adds the weights of attack and pair features, or subtracts them.
fn apply_other_list(
    ft: &FeatureTransformer,
    list: &[u16],
    acc: &mut [i16; 1024],
    psqt: &mut [i32; 8],
    minus: bool,
)
    requires
        ft.wf(),
        below(list@, 64368),
    ensures
        forall|j: int|
            0 <= j < 1024 ==> #[trigger] final(acc)@[j] == arith::wrap16(
                old(acc)@[j] + sign(minus) * other_sum(ft, list@, j),
            ),
        forall|k: int|
            0 <= k < 8 ==> #[trigger] final(psqt)@[k] == arith::wrap32(
                old(psqt)@[k] + sign(minus) * share_sum(ft, list@, k),
            ),
{
    let ghost a0 = acc@;
    let ghost p0 = psqt@;
    let mut i: usize = 0;
    proof {
        assert(list@.take(0) =~= Seq::empty());
        assert forall|j: int| 0 <= j < 1024 implies #[trigger] acc@[j] == arith::wrap16(
            a0[j] + sign(minus) * other_sum(ft, list@.take(0), j),
        ) by {
            arith::lemma_wrap16(a0[j] as int, 0);
        }
        assert forall|k: int| 0 <= k < 8 implies #[trigger] psqt@[k] == arith::wrap32(
            p0[k] + sign(minus) * share_sum(ft, list@.take(0), k),
        ) by {
            arith::lemma_wrap32(p0[k] as int, 0);
        }
    }
    while i < list.len()
        invariant
            ft.wf(),
            below(list@, 64368),
            i <= list@.len(),
            forall|j: int|
                0 <= j < 1024 ==> #[trigger] acc@[j] == arith::wrap16(
                    a0[j] + sign(minus) * other_sum(ft, list@.take(i as int), j),
                ),
            forall|k: int|
                0 <= k < 8 ==> #[trigger] psqt@[k] == arith::wrap32(
                    p0[k] + sign(minus) * share_sum(ft, list@.take(i as int), k),
                ),
        decreases list@.len() - i,
    {
        let idx: usize = list[i] as usize;
        let ghost head = list@.take(i as int);
        let ghost next = list@.take(i + 1);
        let ghost a1 = acc@;
        let ghost p1 = psqt@;
        assert(next.drop_last() =~= head && next.last() == list@[i as int]);
        apply_other(ft, idx, acc, minus);
        let shares: &[i32] = ft.other_psqt_row(idx);
        apply_shares(shares, psqt, minus);
        proof {
            assert forall|j: int| 0 <= j < 1024 implies #[trigger] acc@[j] == arith::wrap16(
                a0[j] + sign(minus) * other_sum(ft, next, j),
            ) by {
                let w = ft.other(idx as int, j);
                assert(a1[j] == arith::wrap16(a0[j] + sign(minus) * other_sum(ft, head, j)));
                arith::lemma_wrap16(a0[j] + sign(minus) * other_sum(ft, head, j), sign(minus) * w);
            }
            assert forall|k: int| 0 <= k < 8 implies #[trigger] psqt@[k] == arith::wrap32(
                p0[k] + sign(minus) * share_sum(ft, next, k),
            ) by {
                let w = ft.other_share(idx as int, k);
                assert(shares@[k] == w);
                assert(p1[k] == arith::wrap32(p0[k] + sign(minus) * share_sum(ft, head, k)));
                arith::lemma_wrap32(p0[k] + sign(minus) * share_sum(ft, head, k), sign(minus) * w);
            }
        }
        i = i + 1;
    }
    assert(list@.take(list@.len() as int) =~= list@);
}

// --- features stay in range ---------------------------------------------------------------

/// Every listed piece feature has its row.
pub proof fn lemma_psq_below(sq: Seq<u8>, perspective: Color)
    requires
        board::valid_squares(sq),
        0 <= board::king_of(sq, perspective.index()) < 64,
    ensures
        below(psq_active(sq, perspective), 22528),
{
    let ksq = board::king_of(sq, perspective.index());
    let rec = half_ka_v2_hm::square_rec(perspective, sq, ksq);
    let w = board::word_of(half_ka_v2_hm::occupied(sq));
    let p = |x: u16| x < 22528;
    assert forall|q: int, i: int| bits::mem(w, q) && 0 <= i < rec(q).len() implies p(
        #[trigger] rec(q)[i],
    ) by {
        lemma_half_index(perspective, q, sq[q] as int, ksq);
    }
    bits::lemma_flat_all(w, rec, p);
    let l = half_ka_v2_hm::active(perspective, sq, ksq);
    assert forall|i: int| 0 <= i < l.len() implies #[trigger] l[i] < 22528 by {
        assert(p(bits::flat(w, rec)[i]));
    }
}

proof fn lemma_half_index(perspective: Color, s: int, pc: int, ksq: int)
    requires
        0 <= s < 64,
        0 <= ksq < 64,
        0 <= pc < 16,
    ensures
        0 <= half_ka_v2_hm::index(perspective, s, pc, ksq) < 22528,
{
}

/// The features of attacks are those that the set keeps.
proof fn lemma_kept_below(perspective: Color, ksq: int, ts: Seq<types::Threat>)
    ensures
        below(full_threats::kept(perspective, ksq, ts), 59808),
    decreases ts.len(),
{
    if ts.len() > 0 {
        lemma_kept_below(perspective, ksq, ts.drop_last());
    }
}

/// Two different pawns on ranks 2 to 7.
pub open spec fn proper_pair(p: pp_3wide::Pair) -> bool {
    8 <= p.a <= 55 && 8 <= p.b <= 55 && p.a != p.b
}

proof fn lemma_numbered_below(perspective: Color, ksq: int, ps: Seq<pp_3wide::Pair>)
    requires
        0 <= ksq < 64,
        forall|i: int| 0 <= i < ps.len() ==> proper_pair(#[trigger] ps[i]),
    ensures
        below(pp_3wide::numbered(perspective, ksq, ps), 64368),
{
    let l = pp_3wide::numbered(perspective, ksq, ps);
    assert forall|i: int| 0 <= i < l.len() implies #[trigger] l[i] < 64368 by {
        let p = ps[i];
        pp_3wide::lemma_index_range(perspective, p.ca, p.a, p.b, p.cb, ksq);
    }
}

proof fn lemma_pairs_with(c: Color, a: int, d: Color, bb: u64, w: u64)
    requires
        8 <= a <= 55,
        pp_3wide::pawn_ranks(bb),
        forall|t: int| #[trigger] bits::mem(w, t) ==> bits::mem(bb, t) && t != a,
    ensures
        forall|i: int|
            0 <= i < bits::flat(w, pp_3wide::partner_rec(c, a, d)).len() ==> proper_pair(
                #[trigger] bits::flat(w, pp_3wide::partner_rec(c, a, d))[i],
            ),
{
    let rec = pp_3wide::partner_rec(c, a, d);
    let p = |x: pp_3wide::Pair| proper_pair(x);
    assert forall|q: int, i: int| bits::mem(w, q) && 0 <= i < rec(q).len() implies p(
        #[trigger] rec(q)[i],
    ) by {
        assert(bits::mem(bb, q));
    }
    bits::lemma_flat_all(w, rec, p);
    assert forall|i: int| 0 <= i < bits::flat(w, rec).len() implies proper_pair(
        #[trigger] bits::flat(w, rec)[i],
    ) by {
        assert(p(bits::flat(w, rec)[i]));
    }
}

/// The pairs of a board are of different pawns on ranks 2 to 7.
pub proof fn lemma_active_pairs_proper(white: u64, black: u64)
    requires
        pp_3wide::pawn_ranks(white),
        pp_3wide::pawn_ranks(black),
    ensures
        forall|i: int|
            0 <= i < pp_3wide::active_pairs(white, black).len() ==> proper_pair(
                #[trigger] pp_3wide::active_pairs(white, black)[i],
            ),
{
    let p = |x: pp_3wide::Pair| proper_pair(x);
    let wrec = pp_3wide::white_rec(white, black);
    let brec = pp_3wide::black_rec(black);
    assert forall|q: int, i: int| bits::mem(white, q) && 0 <= i < wrec(q).len() implies p(
        #[trigger] wrec(q)[i],
    ) by {
        board::lemma_word_exists(pp_3wide::partners(white, q, true));
        board::lemma_word_exists(pp_3wide::partners(black, q, false));
        lemma_pairs_with(
            Color::White,
            q,
            Color::White,
            white,
            board::word_of(pp_3wide::partners(white, q, true)),
        );
        lemma_pairs_with(
            Color::White,
            q,
            Color::Black,
            black,
            board::word_of(pp_3wide::partners(black, q, false)),
        );
    }
    bits::lemma_flat_all(white, wrec, p);
    assert forall|q: int, i: int| bits::mem(black, q) && 0 <= i < brec(q).len() implies p(
        #[trigger] brec(q)[i],
    ) by {
        board::lemma_word_exists(pp_3wide::partners(black, q, true));
        lemma_pairs_with(
            Color::Black,
            q,
            Color::Black,
            black,
            board::word_of(pp_3wide::partners(black, q, true)),
        );
    }
    bits::lemma_flat_all(black, brec, p);
    let l = pp_3wide::active_pairs(white, black);
    let n = bits::flat(white, wrec).len();
    assert forall|i: int| 0 <= i < l.len() implies proper_pair(#[trigger] l[i]) by {
        if i < n {
            assert(p(bits::flat(white, wrec)[i]));
        } else {
            assert(l[i] == bits::flat(black, brec)[i - n]);
            assert(p(bits::flat(black, brec)[i - n]));
        }
    }
}

/// Changed pairs are of different pawns on ranks 2 to 7.
pub proof fn lemma_changed_pairs_proper(updated: u64, white: u64, black: u64)
    requires
        pp_3wide::pawn_ranks(white),
        pp_3wide::pawn_ranks(black),
        forall|t: int| #[trigger]
            bits::mem(updated, t) ==> bits::mem(white, t) || bits::mem(black, t),
    ensures
        forall|i: int|
            0 <= i < pp_3wide::changed_pairs(updated, white, black).len() ==> proper_pair(
                #[trigger] pp_3wide::changed_pairs(updated, white, black)[i],
            ),
{
    let p = |x: pp_3wide::Pair| proper_pair(x);
    let rec = pp_3wide::changed_rec(updated, white, black);
    assert forall|q: int, i: int| bits::mem(updated, q) && 0 <= i < rec(q).len() implies p(
        #[trigger] rec(q)[i],
    ) by {
        board::lemma_word_exists(pp_3wide::new_partners(black, updated, q));
        board::lemma_word_exists(pp_3wide::new_partners(white, updated, q));
        lemma_pairs_with(
            pp_3wide::color_at(black, q),
            q,
            Color::Black,
            black,
            board::word_of(pp_3wide::new_partners(black, updated, q)),
        );
        lemma_pairs_with(
            pp_3wide::color_at(black, q),
            q,
            Color::White,
            white,
            board::word_of(pp_3wide::new_partners(white, updated, q)),
        );
    }
    bits::lemma_flat_all(updated, rec, p);
    let l = pp_3wide::changed_pairs(updated, white, black);
    assert forall|i: int| 0 <= i < l.len() implies proper_pair(#[trigger] l[i]) by {
        assert(p(bits::flat(updated, rec)[i]));
    }
}

/// Every listed feature of attacks and pairs has its row.
pub proof fn lemma_other_below(sq: Seq<u8>, perspective: Color)
    requires
        countable(sq, perspective),
        0 <= board::king_of(sq, perspective.index()),
    ensures
        below(other_active(sq, perspective), 64368),
{
    let ksq = board::king_of(sq, perspective.index());
    let w = pp_3wide::pawn_word(sq, 0);
    let b = pp_3wide::pawn_word(sq, 1);
    lemma_kept_below(perspective, ksq, full_threats::active_threats(sq));
    lemma_active_pairs_proper(w, b);
    lemma_numbered_below(perspective, ksq, pp_3wide::active_pairs(w, b));
    let x = full_threats::kept(perspective, ksq, full_threats::active_threats(sq));
    let y = pp_3wide::numbered(perspective, ksq, pp_3wide::active_pairs(w, b));
    let l = other_active(sq, perspective);
    assert forall|i: int| 0 <= i < l.len() implies #[trigger] l[i] < 64368 by {
        if i < x.len() {
            assert(l[i] == x[i]);
        } else {
            assert(l[i] == y[i - x.len()]);
        }
    }
}

// --- the change of a move --------------------------------------------------------------------

/// The change records fit together: squares of the board, pawns on ranks 2 to
/// 7.
pub open spec fn valid_changes(
    dp: DirtyPiece,
    dts: DirtyThreats,
    pairs: DirtyPawnPairs,
) -> bool {
    &&& half_ka_v2_hm::valid_diff(dp)
    &&& forall|i: int|
        0 <= i < dts.list@.len() ==> (#[trigger] dts.list@[i]).threat().pc_sq < 64
            && dts.list@[i].threat().threatened_sq < 64
    &&& pp_3wide::pawn_ranks(pairs.before@[0]) && pp_3wide::pawn_ranks(pairs.before@[1])
    &&& pp_3wide::pawn_ranks(pairs.after@[0]) && pp_3wide::pawn_ranks(pairs.after@[1])
}

/// The attack and pair features that a move ends.
pub open spec fn others_removed(
    perspective: Color,
    ksq: int,
    dts: DirtyThreats,
    d: DirtyPawnPairs,
) -> Seq<u16> {
    bits::capped(
        full_threats::kept(perspective, ksq, full_threats::changed(dts.list@, false))
            + pp_3wide::numbered(
            perspective,
            ksq,
            pp_3wide::changed_pairs(
                pp_3wide::fresh(d.after@[0], d.after@[1], d.before@[0], d.before@[1]),
                d.before@[0],
                d.before@[1],
            ),
        ),
        256,
    )
}

/// The attack and pair features that a move makes.
pub open spec fn others_added(
    perspective: Color,
    ksq: int,
    dts: DirtyThreats,
    d: DirtyPawnPairs,
) -> Seq<u16> {
    bits::capped(
        full_threats::kept(perspective, ksq, full_threats::changed(dts.list@, true))
            + pp_3wide::numbered(
            perspective,
            ksq,
            pp_3wide::changed_pairs(
                pp_3wide::fresh(d.before@[0], d.before@[1], d.after@[0], d.after@[1]),
                d.after@[0],
                d.after@[1],
            ),
        ),
        256,
    )
}

proof fn lemma_changes_below(perspective: Color, ksq: int, dts: DirtyThreats, d: DirtyPawnPairs)
    requires
        0 <= ksq < 64,
        pp_3wide::pawn_ranks(d.before@[0]),
        pp_3wide::pawn_ranks(d.before@[1]),
        pp_3wide::pawn_ranks(d.after@[0]),
        pp_3wide::pawn_ranks(d.after@[1]),
    ensures
        below(others_removed(perspective, ksq, dts, d), 64368),
        below(others_added(perspective, ksq, dts, d), 64368),
{
    let w0 = d.before@[0];
    let b0 = d.before@[1];
    let w1 = d.after@[0];
    let b1 = d.after@[1];
    let made = pp_3wide::fresh(w0, b0, w1, b1);
    let ended = pp_3wide::fresh(w1, b1, w0, b0);
    lemma_kept_below(perspective, ksq, full_threats::changed(dts.list@, false));
    lemma_kept_below(perspective, ksq, full_threats::changed(dts.list@, true));
    pp_3wide::lemma_fresh(w0, b0, w1, b1);
    pp_3wide::lemma_fresh(w1, b1, w0, b0);
    lemma_changed_pairs_proper(made, w1, b1);
    lemma_changed_pairs_proper(ended, w0, b0);
    lemma_numbered_below(perspective, ksq, pp_3wide::changed_pairs(made, w1, b1));
    lemma_numbered_below(perspective, ksq, pp_3wide::changed_pairs(ended, w0, b0));
    let x = full_threats::kept(perspective, ksq, full_threats::changed(dts.list@, false));
    let y = pp_3wide::numbered(perspective, ksq, pp_3wide::changed_pairs(ended, w0, b0));
    let l = others_removed(perspective, ksq, dts, d);
    assert forall|i: int| 0 <= i < l.len() implies #[trigger] l[i] < 64368 by {
        if i < x.len() {
            assert(l[i] == x[i]);
        } else {
            assert(l[i] == y[i - x.len()]);
        }
    }
    let x = full_threats::kept(perspective, ksq, full_threats::changed(dts.list@, true));
    let y = pp_3wide::numbered(perspective, ksq, pp_3wide::changed_pairs(made, w1, b1));
    let l = others_added(perspective, ksq, dts, d);
    assert forall|i: int| 0 <= i < l.len() implies #[trigger] l[i] < 64368 by {
        if i < x.len() {
            assert(l[i] == x[i]);
        } else {
            assert(l[i] == y[i - x.len()]);
        }
    }
}

/// The sums of one side of `a` are those of `parent` less the ended features
/// and plus the made ones.
pub open spec fn updated(
    ft: &FeatureTransformer,
    a: Accumulator,
    parent: Accumulator,
    perspective: Color,
    ksq: int,
    dp: DirtyPiece,
    dts: DirtyThreats,
    pairs: DirtyPawnPairs,
) -> bool {
    let p = perspective.index();
    let pr = half_ka_v2_hm::removed_by(perspective, ksq, dp);
    let pa = half_ka_v2_hm::added_by(perspective, ksq, dp);
    let or = others_removed(perspective, ksq, dts, pairs);
    let oa = others_added(perspective, ksq, dts, pairs);
    &&& a.computed@[p]
    &&& forall|j: int|
        0 <= j < 1024 ==> #[trigger] a.accumulation@[p]@[j] == arith::wrap16(
            parent.accumulation@[p]@[j] - psq_sum(ft, pr, j) + psq_sum(ft, pa, j) - other_sum(
                ft,
                or,
                j,
            ) + other_sum(ft, oa, j),
        )
    &&& forall|k: int|
        0 <= k < 8 ==> #[trigger] a.psqt@[p]@[k] == arith::wrap32(
            parent.psqt@[p]@[k] - psqt_sum(ft, pr, k) + psqt_sum(ft, pa, k) - share_sum(ft, or, k)
                + share_sum(ft, oa, k),
        )
}

/// All sums are zero, and none of them counts as computed.
pub open spec fn unused(a: Accumulator) -> bool {
    &&& forall|p: int, j: int|
        0 <= p < 2 && 0 <= j < 1024 ==> #[trigger] a.accumulation@[p]@[j] == 0
    &&& forall|p: int, k: int| 0 <= p < 2 && 0 <= k < 8 ==> #[trigger] a.psqt@[p]@[k] == 0
    &&& forall|p: int| 0 <= p < 2 ==> !#[trigger] a.computed@[p]
}

impl Accumulator {
    /// Sums that are still to be taken.
    pub fn new() -> (r: Accumulator)
        ensures
            unused(r),
    {
        Accumulator {
            accumulation: [[0i16; 1024]; 2],
            psqt: [[0i32; 8]; 2],
            computed: [false; 2],
        }
    }

    /// Takes the sums of `perspective` anew.
    #[verifier::spinoff_prover]
    pub fn refresh(&mut self, perspective: Color, board: &Board, ft: &FeatureTransformer)
        requires
            board.wf(),
            ft.wf(),
            countable(board.sq(), perspective),
        ensures
            refreshed(ft, *final(self), perspective, board.sq()),
            other_side_same(*final(self), *old(self), perspective),
    {
        let p: usize = perspective.idx();
        let ghost sq = board.sq();
        let ksq: usize = board.king_square(perspective);
        let mut pieces = half_ka_v2_hm::IndexList::new();
        half_ka_v2_hm::append_active_indices(perspective, board, &mut pieces);
        let mut others = full_threats::IndexList::new();
        full_threats::append_active_indices(perspective, board, &mut others);
        pp_3wide::append_active_indices(perspective, board, &mut others);
        proof {
            board.lemma_valid();
            let none = Seq::<u16>::empty();
            let x = full_threats::kept(
                perspective,
                ksq as int,
                full_threats::active_threats(sq),
            );
            let y = pp_3wide::numbered(
                perspective,
                ksq as int,
                pp_3wide::active_pairs(pp_3wide::pawn_word(sq, 0), pp_3wide::pawn_word(sq, 1)),
            );
            assert(none + half_ka_v2_hm::active(perspective, sq, ksq as int)
                =~= half_ka_v2_hm::active(perspective, sq, ksq as int));
            assert(none + x =~= x);
            bits::lemma_capped(x, y, 256);
            assert(pieces@ == psq_active(sq, perspective));
            assert(others@ == other_active(sq, perspective));
            lemma_psq_below(sq, perspective);
            lemma_other_below(sq, perspective);
        }
        let biases: &[i16] = ft.bias_row();
        let mut acc: [i16; 1024] = [0i16; 1024];
        let mut psqt: [i32; 8] = [0i32; 8];
        let mut j: usize = 0;
        while j < 1024
            invariant
                j <= 1024,
                biases@.len() == 1024,
                forall|k: int| 0 <= k < 1024 ==> #[trigger] biases@[k] == ft.bias(k),
                forall|k: int| 0 <= k < j ==> #[trigger] acc@[k] == ft.bias(k),
            decreases 1024 - j,
        {
            acc[j] = biases[j];
            j = j + 1;
        }
        let ghost a0 = acc@;
        let ghost p0 = psqt@;
        apply_psq_list(ft, pieces.as_slice(), &mut acc, &mut psqt, false);
        let ghost a1 = acc@;
        let ghost p1 = psqt@;
        apply_other_list(ft, others.as_slice(), &mut acc, &mut psqt, false);
        proof {
            assert forall|k: int| 0 <= k < 1024 implies #[trigger] acc@[k] == arith::wrap16(
                ft.bias(k) + psq_sum(ft, pieces@, k) + other_sum(ft, others@, k),
            ) by {
                assert(a1[k] == arith::wrap16(a0[k] + sign(false) * psq_sum(ft, pieces@, k)));
                arith::lemma_wrap16(
                    a0[k] + sign(false) * psq_sum(ft, pieces@, k),
                    sign(false) * other_sum(ft, others@, k),
                );
            }
            assert forall|k: int| 0 <= k < 8 implies #[trigger] psqt@[k] == arith::wrap32(
                psqt_sum(ft, pieces@, k) + share_sum(ft, others@, k),
            ) by {
                assert(p1[k] == arith::wrap32(p0[k] + sign(false) * psqt_sum(ft, pieces@, k)));
                arith::lemma_wrap32(
                    p0[k] + sign(false) * psqt_sum(ft, pieces@, k),
                    sign(false) * share_sum(ft, others@, k),
                );
            }
        }
        self.accumulation[p] = acc;
        self.psqt[p] = psqt;
        self.computed[p] = true;
    }

    /// Takes the sums of `perspective` over from `parent` and applies the
    /// changes of one move; `child_ksq` is the square of its king.
    #[verifier::spinoff_prover]
    #[verifier::rlimit(40)]
    pub fn update_incremental(
        &mut self,
        perspective: Color,
        child_ksq: usize,
        parent: &Accumulator,
        dirty_piece: &DirtyPiece,
        dirty_threats: &DirtyThreats,
        dirty_pawn_pairs: &DirtyPawnPairs,
        ft: &FeatureTransformer,
    )
        requires
            ft.wf(),
            child_ksq < 64,
            valid_changes(*dirty_piece, *dirty_threats, *dirty_pawn_pairs),
        ensures
            updated(
                ft,
                *final(self),
                *parent,
                perspective,
                child_ksq as int,
                *dirty_piece,
                *dirty_threats,
                *dirty_pawn_pairs,
            ),
            other_side_same(*final(self), *old(self), perspective),
    {
        let p: usize = perspective.idx();
        let ghost k0 = child_ksq as int;
        let mut psq_removed = half_ka_v2_hm::IndexList::new();
        let mut psq_added = half_ka_v2_hm::IndexList::new();
        half_ka_v2_hm::append_changed_indices(
            perspective,
            child_ksq,
            dirty_piece,
            &mut psq_removed,
            &mut psq_added,
        );
        let mut other_removed = full_threats::IndexList::new();
        let mut other_added = full_threats::IndexList::new();
        full_threats::append_changed_indices(
            perspective,
            child_ksq,
            dirty_threats,
            &mut other_removed,
            &mut other_added,
        );
        pp_3wide::append_changed_indices(
            perspective,
            child_ksq,
            dirty_pawn_pairs,
            &mut other_removed,
            &mut other_added,
        );
        let ghost pr = half_ka_v2_hm::removed_by(perspective, k0, *dirty_piece);
        let ghost pa = half_ka_v2_hm::added_by(perspective, k0, *dirty_piece);
        let ghost or = others_removed(perspective, k0, *dirty_threats, *dirty_pawn_pairs);
        let ghost oa = others_added(perspective, k0, *dirty_threats, *dirty_pawn_pairs);
        proof {
            let none = Seq::<u16>::empty();
            assert(none + pr =~= pr);
            assert(none + pa =~= pa);
            assert(psq_removed@ == pr);
            assert(psq_added@ == pa);
            lemma_lists_joined(perspective, k0, *dirty_threats, *dirty_pawn_pairs);
            assert(other_removed@ == or);
            assert(other_added@ == oa);
            lemma_diff_below(perspective, k0, *dirty_piece);
            lemma_changes_below(perspective, k0, *dirty_threats, *dirty_pawn_pairs);
        }
        let mut acc: [i16; 1024] = parent.accumulation[p];
        let mut psqt: [i32; 8] = parent.psqt[p];
        let ghost a0 = acc@;
        let ghost p0 = psqt@;
        apply_psq_list(ft, psq_removed.as_slice(), &mut acc, &mut psqt, true);
        let ghost a1 = acc@;
        let ghost p1 = psqt@;
        apply_psq_list(ft, psq_added.as_slice(), &mut acc, &mut psqt, false);
        let ghost a2 = acc@;
        let ghost p2 = psqt@;
        apply_other_list(ft, other_removed.as_slice(), &mut acc, &mut psqt, true);
        let ghost a3 = acc@;
        let ghost p3 = psqt@;
        apply_other_list(ft, other_added.as_slice(), &mut acc, &mut psqt, false);
        proof {
            assert forall|j: int| 0 <= j < 1024 implies #[trigger] acc@[j] == arith::wrap16(
                a0[j] - psq_sum(ft, pr, j) + psq_sum(ft, pa, j) - other_sum(ft, or, j) + other_sum(
                    ft,
                    oa,
                    j,
                ),
            ) by {
                let x1 = psq_sum(ft, pr, j);
                let x2 = psq_sum(ft, pa, j);
                let x3 = other_sum(ft, or, j);
                let x4 = other_sum(ft, oa, j);
                assert(a1[j] == arith::wrap16(a0[j] + sign(true) * x1));
                assert(a2[j] == arith::wrap16(a1[j] + sign(false) * x2));
                assert(a3[j] == arith::wrap16(a2[j] + sign(true) * x3));
                arith::lemma_wrap16(a0[j] - x1, x2);
                arith::lemma_wrap16(a0[j] - x1 + x2, x3);
                arith::lemma_wrap16(a0[j] - x1 + x2 - x3, x4);
            }
            assert forall|k: int| 0 <= k < 8 implies #[trigger] psqt@[k] == arith::wrap32(
                p0[k] - psqt_sum(ft, pr, k) + psqt_sum(ft, pa, k) - share_sum(ft, or, k)
                    + share_sum(ft, oa, k),
            ) by {
                let x1 = psqt_sum(ft, pr, k);
                let x2 = psqt_sum(ft, pa, k);
                let x3 = share_sum(ft, or, k);
                let x4 = share_sum(ft, oa, k);
                assert(p1[k] == arith::wrap32(p0[k] + sign(true) * x1));
                assert(p2[k] == arith::wrap32(p1[k] + sign(false) * x2));
                assert(p3[k] == arith::wrap32(p2[k] + sign(true) * x3));
                arith::lemma_wrap32(p0[k] - x1, x2);
                arith::lemma_wrap32(p0[k] - x1 + x2, x3);
                arith::lemma_wrap32(p0[k] - x1 + x2 - x3, x4);
            }
        }
        self.accumulation[p] = acc;
        self.psqt[p] = psqt;
        self.computed[p] = true;
    }
}

proof fn lemma_lists_joined(perspective: Color, ksq: int, dts: DirtyThreats, d: DirtyPawnPairs)
    ensures
        ({
            let none = Seq::<u16>::empty();
            let x = full_threats::kept(perspective, ksq, full_threats::changed(dts.list@, false));
            let y = pp_3wide::numbered(
                perspective,
                ksq,
                pp_3wide::changed_pairs(
                    pp_3wide::fresh(d.after@[0], d.after@[1], d.before@[0], d.before@[1]),
                    d.before@[0],
                    d.before@[1],
                ),
            );
            bits::capped(bits::capped(none + x, 256) + y, 256) == others_removed(
                perspective,
                ksq,
                dts,
                d,
            )
        }),
        ({
            let none = Seq::<u16>::empty();
            let x = full_threats::kept(perspective, ksq, full_threats::changed(dts.list@, true));
            let y = pp_3wide::numbered(
                perspective,
                ksq,
                pp_3wide::changed_pairs(
                    pp_3wide::fresh(d.before@[0], d.before@[1], d.after@[0], d.after@[1]),
                    d.after@[0],
                    d.after@[1],
                ),
            );
            bits::capped(bits::capped(none + x, 256) + y, 256) == others_added(
                perspective,
                ksq,
                dts,
                d,
            )
        }),
{
    let none = Seq::<u16>::empty();
    let x = full_threats::kept(perspective, ksq, full_threats::changed(dts.list@, false));
    let y = pp_3wide::numbered(
        perspective,
        ksq,
        pp_3wide::changed_pairs(
            pp_3wide::fresh(d.after@[0], d.after@[1], d.before@[0], d.before@[1]),
            d.before@[0],
            d.before@[1],
        ),
    );
    assert(none + x =~= x);
    bits::lemma_capped(x, y, 256);
    let x = full_threats::kept(perspective, ksq, full_threats::changed(dts.list@, true));
    let y = pp_3wide::numbered(
        perspective,
        ksq,
        pp_3wide::changed_pairs(
            pp_3wide::fresh(d.before@[0], d.before@[1], d.after@[0], d.after@[1]),
            d.after@[0],
            d.after@[1],
        ),
    );
    assert(none + x =~= x);
    bits::lemma_capped(x, y, 256);
}

proof fn lemma_diff_below(perspective: Color, ksq: int, dp: DirtyPiece)
    requires
        0 <= ksq < 64,
        half_ka_v2_hm::valid_diff(dp),
    ensures
        below(half_ka_v2_hm::removed_by(perspective, ksq, dp), 22528),
        below(half_ka_v2_hm::added_by(perspective, ksq, dp), 22528),
{
    lemma_half_index(perspective, dp.from as int, dp.pc as int, ksq);
    if dp.to < 64 {
        lemma_half_index(perspective, dp.to as int, dp.pc as int, ksq);
    }
    if dp.remove_sq < 64 {
        lemma_half_index(perspective, dp.remove_sq as int, dp.remove_pc as int, ksq);
    }
    if dp.add_sq < 64 {
        lemma_half_index(perspective, dp.add_sq as int, dp.add_pc as int, ksq);
    }
}

impl Default for Accumulator {
    fn default() -> (r: Self)
        ensures
            unused(r),
    {
        Accumulator::new()
    }
}

impl Network {
    /// The outputs of the network for an accumulator, for the side `stm` to
    /// move; a bucket beyond the heads counts as the last.
    pub fn evaluate(&self, acc: &Accumulator, stm: Color, bucket: usize) -> (r: NetworkOutput)
        requires
            self.wf(),
        ensures
            r == outputs(self, acc, stm, bucket as int),
            -134217728 <= r.psqt <= 134217728,
            -134217728 <= r.positional <= 134217728,
    {
        let us: usize = stm.idx();
        let them: usize = stm.other().idx();
        let k: usize = if bucket < 8 {
            bucket
        } else {
            7
        };
        self.evaluate_sums(
            &acc.accumulation[us],
            &acc.accumulation[them],
            acc.psqt[us][k],
            acc.psqt[them][k],
            bucket,
        )
    }
}

/// The outputs of the network for an accumulator.
pub open spec fn outputs(net: &Network, acc: &Accumulator, stm: Color, bucket: int) -> NetworkOutput {
    let us = stm.index();
    let them = 1 - us;
    let k = if bucket < 8 {
        bucket
    } else {
        7
    };
    network::network_output(
        net.heads(),
        acc.accumulation@[us]@,
        acc.accumulation@[them]@,
        acc.psqt@[us]@[k],
        acc.psqt@[them]@[k],
        bucket,
    )
}

/// The accumulators of a search, one for each ply.
pub struct AccumulatorStack {
    slots: Vec<Accumulator>,
}

impl AccumulatorStack {
    pub closed spec fn view(&self) -> Seq<Accumulator> {
        self.slots@
    }

    /// A stack with nothing computed.
    pub fn new() -> (r: AccumulatorStack)
        ensures
            r@.len() == 129,
            forall|i: int| 0 <= i < 129 ==> unused(#[trigger] r@[i]),
    {
        let mut slots: Vec<Accumulator> = Vec::new();
        let mut i: usize = 0;
        while i < 129
            invariant
                i <= 129,
                slots@.len() == i,
                forall|k: int| 0 <= k < i ==> unused(#[trigger] slots@[k]),
            decreases 129 - i,
        {
            slots.push(Accumulator::new());
            i = i + 1;
        }
        AccumulatorStack { slots }
    }

    pub fn len(&self) -> (r: usize)
        ensures
            r == self@.len(),
    {
        self.slots.len()
    }

    pub fn is_empty(&self) -> (r: bool)
        ensures
            r == (self@.len() == 0),
    {
        self.slots.len() == 0
    }

    pub fn get(&self, ply: usize) -> (r: &Accumulator)
        requires
            ply < self@.len(),
        ensures
            *r == self@[ply as int],
    {
        &self.slots[ply]
    }

    pub fn get_mut(&mut self, ply: usize) -> (r: &mut Accumulator)
        requires
            ply < old(self)@.len(),
        ensures
            *r == old(self)@[ply as int],
            final(self)@ == old(self)@.update(ply as int, *final(r)),
    {
        &mut self.slots[ply]
    }

    /// A copy of the parent's sums together with the slot of the child, which
    /// comes after it.
    pub fn parent_and_child_mut(&mut self, parent_ply: usize, child_ply: usize) -> (r: (
        Accumulator,
        &mut Accumulator,
    ))
        requires
            parent_ply < child_ply < old(self)@.len(),
        ensures
            r.0 == old(self)@[parent_ply as int],
            *r.1 == old(self)@[child_ply as int],
            final(self)@ == old(self)@.update(child_ply as int, *final(r.1)),
    {
        let parent: Accumulator = self.slots[parent_ply];
        (parent, &mut self.slots[child_ply])
    }

    /// Forgets everything that was computed: all slots are as in a new stack.
    pub fn reset(&mut self)
        ensures
            final(self)@.len() == old(self)@.len(),
            forall|i: int| 0 <= i < old(self)@.len() ==> unused(#[trigger] final(self)@[i]),
    {
        let mut i: usize = 0;
        while i < self.slots.len()
            invariant
                i <= self.slots@.len(),
                self.slots@.len() == old(self)@.len(),
                forall|k: int| 0 <= k < i ==> unused(#[trigger] self.slots@[k]),
            decreases self.slots@.len() - i,
        {
            self.slots[i] = Accumulator::new();
            i = i + 1;
        }
    }
}

impl Default for AccumulatorStack {
    fn default() -> (r: Self)
        ensures
            r@.len() == 129,
            forall|i: int| 0 <= i < 129 ==> unused(#[trigger] r@[i]),
    {
        AccumulatorStack::new()
    }
}

} // verus!
