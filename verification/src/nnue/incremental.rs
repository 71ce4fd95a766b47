//! Sums that are kept up to date move by move are those of the board.
use vstd::prelude::*;
use crate::arith;
use crate::bits;
use crate::board::rules::Step;
use crate::board::rules;
use crate::board::{Placement, Position};
use crate::nnue::accumulator::Accumulator;
use crate::nnue::accumulator;
use crate::nnue::balance;
use crate::nnue::board::MoveDirties;
use crate::nnue::board;
use crate::nnue::capacity;
use crate::nnue::features::{full_threats, half_ka_v2_hm, pp_3wide};
use crate::nnue::network::FeatureTransformer;
use crate::nnue::room;
use crate::nnue::types::{Color, DirtyThreat};
use crate::nnue::types;
use crate::sums;
use crate::types::{RawMove, CASTLE};

verus! {

// --- the sums as weights -----------------------------------------------------------------

pub open spec fn psq_weight(ft: &FeatureTransformer, j: int) -> spec_fn(u16) -> int {
    |i: u16| ft.psq(i as int, j)
}

pub open spec fn other_weight(ft: &FeatureTransformer, j: int) -> spec_fn(u16) -> int {
    |i: u16| ft.other(i as int, j)
}

pub open spec fn psqt_weight(ft: &FeatureTransformer, k: int) -> spec_fn(u16) -> int {
    |i: u16| ft.psqt(i as int, k)
}

pub open spec fn share_weight(ft: &FeatureTransformer, k: int) -> spec_fn(u16) -> int {
    |i: u16| ft.other_share(i as int, k)
}

/// The sums over features are sums of weights.
pub proof fn lemma_sums(ft: &FeatureTransformer, l: Seq<u16>, j: int)
    ensures
        accumulator::psq_sum(ft, l, j) == sums::total(l, psq_weight(ft, j)),
        accumulator::other_sum(ft, l, j) == sums::total(l, other_weight(ft, j)),
        accumulator::psqt_sum(ft, l, j) == sums::total(l, psqt_weight(ft, j)),
        accumulator::share_sum(ft, l, j) == sums::total(l, share_weight(ft, j)),
    decreases l.len(),
{
    if l.len() > 0 {
        lemma_sums(ft, l.drop_last(), j);
    }
}

/// What the feature of an attack weighs.
pub open spec fn threat_weight(
    perspective: Color,
    ksq: int,
    w: spec_fn(u16) -> int,
) -> spec_fn(types::Threat) -> int {
    |t: types::Threat| sums::total(full_threats::feature(perspective, ksq, t), w)
}

/// What the feature of a pair weighs.
pub open spec fn pair_weight(
    perspective: Color,
    ksq: int,
    w: spec_fn(u16) -> int,
) -> spec_fn(pp_3wide::Pair) -> int {
    |p: pp_3wide::Pair| w(pp_3wide::number(perspective, ksq)(p))
}

/// The features of attacks weigh what the attacks weigh.
pub proof fn lemma_kept(
    perspective: Color,
    ksq: int,
    ts: Seq<types::Threat>,
    w: spec_fn(u16) -> int,
)
    ensures
        sums::total(full_threats::kept(perspective, ksq, ts), w) == sums::total(
            ts,
            threat_weight(perspective, ksq, w),
        ),
        full_threats::kept(perspective, ksq, ts).len() <= ts.len(),
    decreases ts.len(),
{
    if ts.len() > 0 {
        lemma_kept(perspective, ksq, ts.drop_last(), w);
        sums::lemma_total_add(
            full_threats::kept(perspective, ksq, ts.drop_last()),
            full_threats::feature(perspective, ksq, ts.last()),
            w,
        );
    }
}

/// The features of pairs weigh what the pairs weigh.
pub proof fn lemma_numbered(
    perspective: Color,
    ksq: int,
    ps: Seq<pp_3wide::Pair>,
    w: spec_fn(u16) -> int,
)
    ensures
        sums::total(pp_3wide::numbered(perspective, ksq, ps), w) == sums::total(
            ps,
            pair_weight(perspective, ksq, w),
        ),
    decreases ps.len(),
{
    if ps.len() > 0 {
        lemma_numbered(perspective, ksq, ps.drop_last(), w);
        assert(pp_3wide::numbered(perspective, ksq, ps).drop_last() =~= pp_3wide::numbered(
            perspective,
            ksq,
            ps.drop_last(),
        ));
    }
}

proof fn lemma_changed_len(l: Seq<DirtyThreat>, made: bool)
    ensures
        full_threats::changed(l, made).len() <= l.len(),
    decreases l.len(),
{
    if l.len() > 0 {
        lemma_changed_len(l.drop_last(), made);
    }
}

// --- the lists ------------------------------------------------------------------------------

/// The features of attacks and pairs of a board, all of them.
pub open spec fn all_others(sq: Seq<u8>, perspective: Color, ksq: int) -> Seq<u16> {
    full_threats::kept(perspective, ksq, full_threats::active_threats(sq)) + pp_3wide::numbered(
        perspective,
        ksq,
        pp_3wide::active_pairs(pp_3wide::pawn_word(sq, 0), pp_3wide::pawn_word(sq, 1)),
    )
}

/// The features of a board fit into the lists that an accumulator sums up: 32
/// pieces, 256 attacks and pairs.
pub open spec fn fits(sq: Seq<u8>, perspective: Color) -> bool {
    let ksq = board::king_of(sq, perspective.index());
    &&& half_ka_v2_hm::active(perspective, sq, ksq).len() <= 32
    &&& all_others(sq, perspective, ksq).len() <= 256
}

/// The features of attacks and pairs that a move makes or ends, all of them.
pub open spec fn all_changed(
    perspective: Color,
    ksq: int,
    l: Seq<DirtyThreat>,
    made: bool,
    w0: u64,
    b0: u64,
    w1: u64,
    b1: u64,
) -> Seq<u16> {
    full_threats::kept(perspective, ksq, full_threats::changed(l, made)) + pp_3wide::numbered(
        perspective,
        ksq,
        if made {
            pp_3wide::changed_pairs(pp_3wide::fresh(w0, b0, w1, b1), w1, b1)
        } else {
            pp_3wide::changed_pairs(pp_3wide::fresh(w1, b1, w0, b0), w0, b0)
        },
    )
}

/// The squares whose pawns a move changes.
pub open spec fn touched(m: RawMove, us: Color, s: int) -> bool {
    s == m.from_sq() || s == m.to_sq() || s == board::passed_pawn(m.to_sq(), us)
}

proof fn lemma_touched(m: RawMove, us: Color, bb: u64)
    requires
        forall|s: int| #[trigger] bits::mem(bb, s) ==> touched(m, us, s),
    ensures
        bits::ones(bb) <= 3,
{
    let f = |s: int|
        if s == m.from_sq() {
            0int
        } else if s == m.to_sq() {
            1
        } else {
            2
        };
    assert forall|s: int| #[trigger] bits::mem(bb, s) implies 0 <= f(s) < 3 by {}
    bits::lemma_ones_numbered(bb, f, 3);
}

/// The king of the side that neither moves it nor loses it stays where it is.
proof fn lemma_king_stays(sq: Seq<u8>, m: RawMove, us: Color, perspective: Color)
    requires
        board::valid_squares(sq),
        board::playable(sq, m, us),
        sq[m.from_sq()] != 8 * perspective.index() + 6,
        sq[m.to_sq()] != 8 * perspective.index() + 6,
        0 <= board::king_of(sq, perspective.index()) < 64,
    ensures
        board::king_of(board::played(sq, m, us), perspective.index()) == board::king_of(
            sq,
            perspective.index(),
        ),
{
    let c = perspective.index();
    let next = board::played(sq, m, us);
    assert forall|s: int| 0 <= s < 64 implies (next[s] == 8 * c + 6) == (#[trigger] sq[s] == 8 * c
        + 6) by {}
    let k = lowest_king(sq, c, 64);
    board::lemma_king_of(sq, c, k);
    assert forall|t: int| 0 <= t < k implies #[trigger] next[t] != 8 * c + 6 by {
        assert(sq[t] != 8 * c + 6);
    }
    assert(sq[k] == 8 * c + 6);
    board::lemma_king_of(next, c, k);
}

/// The lowest square below `n` with the king.
proof fn lowest_king(sq: Seq<u8>, c: int, n: int) -> (k: int)
    requires
        0 <= n <= 64,
        board::king_of(sq, c) < 64 || exists|s: int| 0 <= s < n && #[trigger] sq[s] == 8 * c + 6,
    ensures
        (exists|s: int| 0 <= s < n && #[trigger] sq[s] == 8 * c + 6) ==> 0 <= k < n && sq[k] == 8
            * c + 6 && forall|t: int| 0 <= t < k ==> #[trigger] sq[t] != 8 * c + 6,
    decreases n,
{
    if exists|s: int| 0 <= s < n - 1 && #[trigger] sq[s] == 8 * c + 6 {
        lowest_king(sq, c, n - 1)
    } else {
        if exists|s: int| 0 <= s < n && #[trigger] sq[s] == 8 * c + 6 {
            let s = choose|s: int| 0 <= s < n && #[trigger] sq[s] == 8 * c + 6;
            assert(s == n - 1);
        }
        n - 1
    }
}

/// The pawn words of the two boards of a move, and what changes between them.
proof fn lemma_pawn_words(
    sq: Seq<u8>,
    m: RawMove,
    us: Color,
    perspective: Color,
    r: MoveDirties,
)
    requires
        board::valid_squares(sq),
        board::playable(sq, m, us),
        accumulator::countable(sq, perspective),
        accumulator::countable(board::played(sq, m, us), perspective),
        board::describes(r, sq, m, us),
    ensures
        r.dirty_pawn_pairs.before@[0] == pp_3wide::pawn_word(sq, 0),
        r.dirty_pawn_pairs.before@[1] == pp_3wide::pawn_word(sq, 1),
        r.dirty_pawn_pairs.after@[0] == pp_3wide::pawn_word(board::played(sq, m, us), 0),
        r.dirty_pawn_pairs.after@[1] == pp_3wide::pawn_word(board::played(sq, m, us), 1),
        balance::pawn_words(pp_3wide::pawn_word(sq, 0), pp_3wide::pawn_word(sq, 1)),
        balance::pawn_words(
            pp_3wide::pawn_word(board::played(sq, m, us), 0),
            pp_3wide::pawn_word(board::played(sq, m, us), 1),
        ),
        ({
            let w0 = pp_3wide::pawn_word(sq, 0);
            let b0 = pp_3wide::pawn_word(sq, 1);
            let w1 = pp_3wide::pawn_word(board::played(sq, m, us), 0);
            let b1 = pp_3wide::pawn_word(board::played(sq, m, us), 1);
            bits::ones(pp_3wide::fresh(w0, b0, w1, b1)) <= 3 && bits::ones(
                pp_3wide::fresh(w1, b1, w0, b0),
            ) <= 3
        }),
{
    let next = board::played(sq, m, us);
    let d = r.dirty_pawn_pairs;
    let w0 = d.before@[0];
    let b0 = d.before@[1];
    let w1 = d.after@[0];
    let b1 = d.after@[1];
    assert(board::word_has(w0, full_threats::holding(sq, 1)));
    assert(board::word_has(b0, full_threats::holding(sq, 9)));
    assert(board::word_has(w1, full_threats::holding(next, 1)));
    assert(board::word_has(b1, full_threats::holding(next, 9)));
    board::lemma_word_of(w0, full_threats::holding(sq, 1));
    board::lemma_word_of(b0, full_threats::holding(sq, 9));
    board::lemma_word_of(w1, full_threats::holding(next, 1));
    board::lemma_word_of(b1, full_threats::holding(next, 9));
    pp_3wide::lemma_fresh(w0, b0, w1, b1);
    pp_3wide::lemma_fresh(w1, b1, w0, b0);
    assert forall|s: int| 0 <= s < 64 && !touched(m, us, s) implies ((#[trigger] sq[s] == 1) == (
    next[s] == 1)) && ((sq[s] == 9) == (next[s] == 9)) by {}
    assert forall|s: int| #[trigger]
        bits::mem(pp_3wide::fresh(w0, b0, w1, b1), s) implies touched(m, us, s) by {
        assert(sq[s] == sq[s]);
    }
    assert forall|s: int| #[trigger]
        bits::mem(pp_3wide::fresh(w1, b1, w0, b0), s) implies touched(m, us, s) by {
        assert(sq[s] == sq[s]);
    }
    lemma_touched(m, us, pp_3wide::fresh(w0, b0, w1, b1));
    lemma_touched(m, us, pp_3wide::fresh(w1, b1, w0, b0));
}

/// The changes that a move reports fit into the lists that an accumulator sums
/// up.
proof fn lemma_changes_fit(
    perspective: Color,
    ksq: int,
    l: Seq<DirtyThreat>,
    made: bool,
    w0: u64,
    b0: u64,
    w1: u64,
    b1: u64,
)
    requires
        l.len() <= 96,
        bits::ones(pp_3wide::fresh(w0, b0, w1, b1)) <= 3,
        bits::ones(pp_3wide::fresh(w1, b1, w0, b0)) <= 3,
    ensures
        all_changed(perspective, ksq, l, made, w0, b0, w1, b1).len() <= 256,
{
    lemma_changed_len(l, made);
    lemma_kept(perspective, ksq, full_threats::changed(l, made), |x: u16| 0int);
    capacity::lemma_changed_pairs_len(pp_3wide::fresh(w0, b0, w1, b1), w1, b1);
    capacity::lemma_changed_pairs_len(pp_3wide::fresh(w1, b1, w0, b0), w0, b0);
}

/// The features of attacks and pairs balance.
proof fn lemma_others_balance(
    sq: Seq<u8>,
    m: RawMove,
    us: Color,
    perspective: Color,
    ksq: int,
    w: spec_fn(u16) -> int,
)
    requires
        board::valid_squares(sq),
        board::playable(sq, m, us),
        balance::regular(sq, m),
        balance::pawn_words(pp_3wide::pawn_word(sq, 0), pp_3wide::pawn_word(sq, 1)),
        balance::pawn_words(
            pp_3wide::pawn_word(board::played(sq, m, us), 0),
            pp_3wide::pawn_word(board::played(sq, m, us), 1),
        ),
    ensures
        ({
            let next = board::played(sq, m, us);
            let l = board::move_records(sq, m, us);
            let w0 = pp_3wide::pawn_word(sq, 0);
            let b0 = pp_3wide::pawn_word(sq, 1);
            let w1 = pp_3wide::pawn_word(next, 0);
            let b1 = pp_3wide::pawn_word(next, 1);
            sums::total(all_others(next, perspective, ksq), w) + sums::total(
                all_changed(perspective, ksq, l, false, w0, b0, w1, b1),
                w,
            ) == sums::total(all_others(sq, perspective, ksq), w) + sums::total(
                all_changed(perspective, ksq, l, true, w0, b0, w1, b1),
                w,
            )
        }),
{
    let next = board::played(sq, m, us);
    let l = board::move_records(sq, m, us);
    let w0 = pp_3wide::pawn_word(sq, 0);
    let b0 = pp_3wide::pawn_word(sq, 1);
    let w1 = pp_3wide::pawn_word(next, 0);
    let b1 = pp_3wide::pawn_word(next, 1);
    let t0 = full_threats::active_threats(sq);
    let t1 = full_threats::active_threats(next);
    let te = full_threats::changed(l, false);
    let tm = full_threats::changed(l, true);
    let p0 = pp_3wide::active_pairs(w0, b0);
    let p1 = pp_3wide::active_pairs(w1, b1);
    let pe = pp_3wide::changed_pairs(pp_3wide::fresh(w1, b1, w0, b0), w0, b0);
    let pm = pp_3wide::changed_pairs(pp_3wide::fresh(w0, b0, w1, b1), w1, b1);
    balance::law_threats_balance(sq, m, us, threat_weight(perspective, ksq, w));
    balance::law_pairs_balance(w0, b0, w1, b1, pair_weight(perspective, ksq, w));
    lemma_joined(perspective, ksq, t0, p0, w);
    lemma_joined(perspective, ksq, t1, p1, w);
    lemma_joined(perspective, ksq, te, pe, w);
    lemma_joined(perspective, ksq, tm, pm, w);
}

proof fn lemma_joined(
    perspective: Color,
    ksq: int,
    ts: Seq<types::Threat>,
    ps: Seq<pp_3wide::Pair>,
    w: spec_fn(u16) -> int,
)
    ensures
        sums::total(
            full_threats::kept(perspective, ksq, ts) + pp_3wide::numbered(perspective, ksq, ps),
            w,
        ) == sums::total(ts, threat_weight(perspective, ksq, w)) + sums::total(
            ps,
            pair_weight(perspective, ksq, w),
        ),
{
    lemma_kept(perspective, ksq, ts, w);
    lemma_numbered(perspective, ksq, ps, w);
    sums::lemma_total_add(
        full_threats::kept(perspective, ksq, ts),
        pp_3wide::numbered(perspective, ksq, ps),
        w,
    );
}

/// The change of the lists, as the accumulator holds them.
#[verifier::spinoff_prover]
proof fn lemma_lists(
    sq: Seq<u8>,
    m: RawMove,
    us: Color,
    perspective: Color,
    r: MoveDirties,
)
    requires
        board::valid_squares(sq),
        board::playable(sq, m, us),
        balance::regular(sq, m),
        sq[m.from_sq()] != 8 * perspective.index() + 6,
        sq[m.to_sq()] != 8 * perspective.index() + 6,
        accumulator::countable(sq, perspective),
        accumulator::countable(board::played(sq, m, us), perspective),
        0 <= board::king_of(sq, perspective.index()),
        fits(sq, perspective),
        fits(board::played(sq, m, us), perspective),
        board::describes(r, sq, m, us),
    ensures
        ({
            let next = board::played(sq, m, us);
            let ksq = board::king_of(sq, perspective.index());
            let l = board::move_records(sq, m, us);
            let w0 = pp_3wide::pawn_word(sq, 0);
            let b0 = pp_3wide::pawn_word(sq, 1);
            let w1 = pp_3wide::pawn_word(next, 0);
            let b1 = pp_3wide::pawn_word(next, 1);
            &&& accumulator::psq_active(sq, perspective) == half_ka_v2_hm::active(
                perspective,
                sq,
                ksq,
            )
            &&& accumulator::psq_active(next, perspective) == half_ka_v2_hm::active(
                perspective,
                next,
                ksq,
            )
            &&& accumulator::other_active(sq, perspective) == all_others(sq, perspective, ksq)
            &&& accumulator::other_active(next, perspective) == all_others(next, perspective, ksq)
            &&& accumulator::others_removed(perspective, ksq, r.dirty_threats, r.dirty_pawn_pairs)
                == all_changed(perspective, ksq, l, false, w0, b0, w1, b1)
            &&& accumulator::others_added(perspective, ksq, r.dirty_threats, r.dirty_pawn_pairs)
                == all_changed(perspective, ksq, l, true, w0, b0, w1, b1)
            &&& balance::pawn_words(w0, b0)
            &&& balance::pawn_words(w1, b1)
        }),
{
    let next = board::played(sq, m, us);
    let ksq = board::king_of(sq, perspective.index());
    let l = board::move_records(sq, m, us);
    let w0 = pp_3wide::pawn_word(sq, 0);
    let b0 = pp_3wide::pawn_word(sq, 1);
    let w1 = pp_3wide::pawn_word(next, 0);
    let b1 = pp_3wide::pawn_word(next, 1);
    lemma_king_stays(sq, m, us, perspective);
    lemma_pawn_words(sq, m, us, perspective, r);
    capacity::law_records_fit(sq, m, us);
    lemma_changes_fit(perspective, ksq, l, true, w0, b0, w1, b1);
    lemma_changes_fit(perspective, ksq, l, false, w0, b0, w1, b1);
}

/// The sums of the lists `p1` and `o1` differ from those of `p0` and `o0` by
/// what was removed and added.
pub open spec fn differ_by(
    ft: &FeatureTransformer,
    p0: Seq<u16>,
    o0: Seq<u16>,
    p1: Seq<u16>,
    o1: Seq<u16>,
    pr: Seq<u16>,
    pa: Seq<u16>,
    or: Seq<u16>,
    oa: Seq<u16>,
    j: int,
) -> bool {
    &&& accumulator::psq_sum(ft, p1, j) == accumulator::psq_sum(ft, p0, j) - accumulator::psq_sum(
        ft,
        pr,
        j,
    ) + accumulator::psq_sum(ft, pa, j)
    &&& accumulator::psqt_sum(ft, p1, j) == accumulator::psqt_sum(ft, p0, j)
        - accumulator::psqt_sum(ft, pr, j) + accumulator::psqt_sum(ft, pa, j)
    &&& accumulator::other_sum(ft, o1, j) == accumulator::other_sum(ft, o0, j)
        - accumulator::other_sum(ft, or, j) + accumulator::other_sum(ft, oa, j)
    &&& accumulator::share_sum(ft, o1, j) == accumulator::share_sum(ft, o0, j)
        - accumulator::share_sum(ft, or, j) + accumulator::share_sum(ft, oa, j)
}

/// Sums that wrap around, taken over and changed, are the sums of the changed
/// lists.
proof fn lemma_taken_over(
    ft: &FeatureTransformer,
    acc0: Seq<i16>,
    psqt0: Seq<i32>,
    acc1: Seq<i16>,
    psqt1: Seq<i32>,
    p0: Seq<u16>,
    o0: Seq<u16>,
    p1: Seq<u16>,
    o1: Seq<u16>,
    pr: Seq<u16>,
    pa: Seq<u16>,
    or: Seq<u16>,
    oa: Seq<u16>,
)
    requires
        accumulator::holds(ft, acc0, psqt0, p0, o0),
        forall|j: int| #[trigger] differ_by(ft, p0, o0, p1, o1, pr, pa, or, oa, j),
        forall|j: int|
            0 <= j < 1024 ==> #[trigger] acc1[j] == arith::wrap16(
                acc0[j] - accumulator::psq_sum(ft, pr, j) + accumulator::psq_sum(ft, pa, j)
                    - accumulator::other_sum(ft, or, j) + accumulator::other_sum(ft, oa, j),
            ),
        forall|k: int|
            0 <= k < 8 ==> #[trigger] psqt1[k] == arith::wrap32(
                psqt0[k] - accumulator::psqt_sum(ft, pr, k) + accumulator::psqt_sum(ft, pa, k)
                    - accumulator::share_sum(ft, or, k) + accumulator::share_sum(ft, oa, k),
            ),
    ensures
        accumulator::holds(ft, acc1, psqt1, p1, o1),
{
    assert forall|j: int| 0 <= j < 1024 implies #[trigger] acc1[j] == arith::wrap16(
        ft.bias(j) + accumulator::psq_sum(ft, p1, j) + accumulator::other_sum(ft, o1, j),
    ) by {
        assert(differ_by(ft, p0, o0, p1, o1, pr, pa, or, oa, j));
        let before = ft.bias(j) + accumulator::psq_sum(ft, p0, j) + accumulator::other_sum(
            ft,
            o0,
            j,
        );
        let after = ft.bias(j) + accumulator::psq_sum(ft, p1, j) + accumulator::other_sum(
            ft,
            o1,
            j,
        );
        assert(acc0[j] == arith::wrap16(before));
        arith::lemma_wrap16(before, after - before);
    }
    assert forall|k: int| 0 <= k < 8 implies #[trigger] psqt1[k] == arith::wrap32(
        accumulator::psqt_sum(ft, p1, k) + accumulator::share_sum(ft, o1, k),
    ) by {
        assert(differ_by(ft, p0, o0, p1, o1, pr, pa, or, oa, k));
        let before = accumulator::psqt_sum(ft, p0, k) + accumulator::share_sum(ft, o0, k);
        let after = accumulator::psqt_sum(ft, p1, k) + accumulator::share_sum(ft, o1, k);
        assert(psqt0[k] == arith::wrap32(before));
        arith::lemma_wrap32(before, after - before);
    }
}

/// How the sums of the lists change with a move.
#[verifier::spinoff_prover]
#[verifier::rlimit(60)]
proof fn lemma_entries(
    ft: &FeatureTransformer,
    sq: Seq<u8>,
    m: RawMove,
    us: Color,
    perspective: Color,
    r: MoveDirties,
    j: int,
)
    requires
        board::valid_squares(sq),
        board::playable(sq, m, us),
        balance::regular(sq, m),
        sq[m.from_sq()] != 8 * perspective.index() + 6,
        sq[m.to_sq()] != 8 * perspective.index() + 6,
        accumulator::countable(sq, perspective),
        accumulator::countable(board::played(sq, m, us), perspective),
        0 <= board::king_of(sq, perspective.index()),
        fits(sq, perspective),
        fits(board::played(sq, m, us), perspective),
        board::describes(r, sq, m, us),
    ensures
        ({
            let next = board::played(sq, m, us);
            let ksq = board::king_of(sq, perspective.index());
            let pieces0 = accumulator::psq_active(sq, perspective);
            let pieces1 = accumulator::psq_active(next, perspective);
            let others0 = accumulator::other_active(sq, perspective);
            let others1 = accumulator::other_active(next, perspective);
            let pr = half_ka_v2_hm::removed_by(perspective, ksq, r.dirty_piece);
            let pa = half_ka_v2_hm::added_by(perspective, ksq, r.dirty_piece);
            let or = accumulator::others_removed(
                perspective,
                ksq,
                r.dirty_threats,
                r.dirty_pawn_pairs,
            );
            let oa = accumulator::others_added(
                perspective,
                ksq,
                r.dirty_threats,
                r.dirty_pawn_pairs,
            );
            differ_by(ft, pieces0, others0, pieces1, others1, pr, pa, or, oa, j)
        }),
{
    let next = board::played(sq, m, us);
    let ksq = board::king_of(sq, perspective.index());
    lemma_lists(sq, m, us, perspective, r);
    lemma_sums(ft, accumulator::psq_active(sq, perspective), j);
    lemma_sums(ft, accumulator::psq_active(next, perspective), j);
    lemma_sums(ft, half_ka_v2_hm::removed_by(perspective, ksq, r.dirty_piece), j);
    lemma_sums(ft, half_ka_v2_hm::added_by(perspective, ksq, r.dirty_piece), j);
    lemma_sums(ft, accumulator::other_active(sq, perspective), j);
    lemma_sums(ft, accumulator::other_active(next, perspective), j);
    lemma_sums(
        ft,
        accumulator::others_removed(perspective, ksq, r.dirty_threats, r.dirty_pawn_pairs),
        j,
    );
    lemma_sums(
        ft,
        accumulator::others_added(perspective, ksq, r.dirty_threats, r.dirty_pawn_pairs),
        j,
    );
    balance::law_pieces_balance(sq, m, us, perspective, ksq, psq_weight(ft, j));
    balance::law_pieces_balance(sq, m, us, perspective, ksq, psqt_weight(ft, j));
    lemma_others_balance(sq, m, us, perspective, ksq, other_weight(ft, j));
    lemma_others_balance(sq, m, us, perspective, ksq, share_weight(ft, j));
}

/// A move leaves pieces and empty squares behind.
proof fn lemma_next_valid(sq: Seq<u8>, m: RawMove, us: Color)
    requires
        board::valid_squares(sq),
        board::playable(sq, m, us),
    ensures
        board::valid_squares(board::played(sq, m, us)),
{
    if let Some(role) = m.promotion_spec() {
        assert(types::is_piece(8 * us.index() + role.code_spec()));
    }
}

/// The features of the boards before and after a move fit into the lists.
proof fn lemma_both_fit(sq: Seq<u8>, m: RawMove, us: Color, perspective: Color)
    requires
        board::valid_squares(sq),
        board::playable(sq, m, us),
        accumulator::countable(sq, perspective),
        accumulator::countable(board::played(sq, m, us), perspective),
        room::peopled(sq),
        room::peopled(board::played(sq, m, us)),
    ensures
        fits(sq, perspective),
        fits(board::played(sq, m, us), perspective),
{
    lemma_next_valid(sq, m, us);
    room::law_features_fit(sq, perspective);
    room::law_features_fit(board::played(sq, m, us), perspective);
}

/// Applying the changes that a move reports to the sums of the board before it
/// gives the sums of the board after it, for a side whose king neither moves
/// nor is captured.
#[verifier::spinoff_prover]
pub proof fn law_incremental_is_refresh(
    ft: &FeatureTransformer,
    sq: Seq<u8>,
    m: RawMove,
    us: Color,
    perspective: Color,
    r: MoveDirties,
    parent: Accumulator,
    child: Accumulator,
)
    requires
        board::valid_squares(sq),
        board::playable(sq, m, us),
        balance::regular(sq, m),
        sq[m.from_sq()] != 8 * perspective.index() + 6,
        sq[m.to_sq()] != 8 * perspective.index() + 6,
        accumulator::countable(sq, perspective),
        accumulator::countable(board::played(sq, m, us), perspective),
        0 <= board::king_of(sq, perspective.index()),
        room::peopled(sq),
        room::peopled(board::played(sq, m, us)),
        board::describes(r, sq, m, us),
        accumulator::refreshed(ft, parent, perspective, sq),
        accumulator::updated(
            ft,
            child,
            parent,
            perspective,
            board::king_of(sq, perspective.index()),
            r.dirty_piece,
            r.dirty_threats,
            r.dirty_pawn_pairs,
        ),
    ensures
        accumulator::refreshed(ft, child, perspective, board::played(sq, m, us)),
{
    let p = perspective.index();
    let next = board::played(sq, m, us);
    let ksq = board::king_of(sq, p);
    let pieces0 = accumulator::psq_active(sq, perspective);
    let pieces1 = accumulator::psq_active(next, perspective);
    let others0 = accumulator::other_active(sq, perspective);
    let others1 = accumulator::other_active(next, perspective);
    let pr = half_ka_v2_hm::removed_by(perspective, ksq, r.dirty_piece);
    let pa = half_ka_v2_hm::added_by(perspective, ksq, r.dirty_piece);
    let or = accumulator::others_removed(perspective, ksq, r.dirty_threats, r.dirty_pawn_pairs);
    let oa = accumulator::others_added(perspective, ksq, r.dirty_threats, r.dirty_pawn_pairs);
    lemma_both_fit(sq, m, us, perspective);
    assert forall|j: int| #[trigger]
        differ_by(ft, pieces0, others0, pieces1, others1, pr, pa, or, oa, j) by {
        lemma_entries(ft, sq, m, us, perspective, r, j);
    }
    lemma_taken_over(
        ft,
        parent.accumulation@[p]@,
        parent.psqt@[p]@,
        child.accumulation@[p]@,
        child.psqt@[p]@,
        pieces0,
        others0,
        pieces1,
        others1,
        pr,
        pa,
        or,
        oa,
    );
}

/// What a move reports is what an accumulator can be brought up to date with,
/// where the pawns stand on ranks 2 to 7 before the move and after it.
pub proof fn law_changes_are_valid(sq: Seq<u8>, m: RawMove, us: Color, r: MoveDirties)
    requires
        board::valid_squares(sq),
        board::playable(sq, m, us),
        board::describes(r, sq, m, us),
        pawns_in_range(sq),
        pawns_in_range(board::played(sq, m, us)),
    ensures
        accumulator::valid_changes(r.dirty_piece, r.dirty_threats, r.dirty_pawn_pairs),
{
    let next = board::played(sq, m, us);
    let l = board::move_records(sq, m, us);
    capacity::law_records_on_board(sq, m, us);
    assert forall|i: int| 0 <= i < r.dirty_threats.list@.len() implies (
    #[trigger] r.dirty_threats.list@[i]).threat().pc_sq < 64
        && r.dirty_threats.list@[i].threat().threatened_sq < 64 by {
        assert(capacity::on_squares()(l[i]));
    }
    assert(half_ka_v2_hm::valid_diff(r.dirty_piece)) by {
        assert(sq[m.from_sq()] < 16 && sq[m.to_sq()] < 16);
        if let Some(role) = m.promotion_spec() {
            assert(types::is_piece(8 * us.index() + role.code_spec()));
        }
    }
    assert forall|c: int, s: int|
        0 <= c < 2 && #[trigger] bits::mem(r.dirty_pawn_pairs.before@[c], s) implies 8 <= s
        <= 55 by {
        assert(sq[s] as int % 8 == 1);
    }
    assert forall|c: int, s: int|
        0 <= c < 2 && #[trigger] bits::mem(r.dirty_pawn_pairs.after@[c], s) implies 8 <= s <= 55 by {
        assert(next[s] as int % 8 == 1);
    }
}

/// The pawns stand on ranks 2 to 7.
pub open spec fn pawns_in_range(sq: Seq<u8>) -> bool {
    forall|s: int| 0 <= s < 64 && #[trigger] sq[s] as int % 8 == 1 ==> 8 <= s <= 55
}

/// The features of attacks after a move are those before it, with those that the
/// move made and without those that it ended, each as often. All of them fit into
/// their lists, and so do the records of the move.
#[verifier::spinoff_prover]
#[verifier::rlimit(40)]
pub proof fn law_threat_features_balance(
    sq: Seq<u8>,
    m: RawMove,
    us: Color,
    perspective: Color,
    ksq: int,
    r: MoveDirties,
    x: u16,
)
    requires
        board::valid_squares(sq),
        board::playable(sq, m, us),
        balance::regular(sq, m),
        board::describes(r, sq, m, us),
    ensures
        ({
            let before = full_threats::kept(perspective, ksq, full_threats::active_threats(sq));
            let after = full_threats::kept(
                perspective,
                ksq,
                full_threats::active_threats(r.board.sq()),
            );
            let added = full_threats::kept(
                perspective,
                ksq,
                full_threats::changed(r.dirty_threats.list@, true),
            );
            let removed = full_threats::kept(
                perspective,
                ksq,
                full_threats::changed(r.dirty_threats.list@, false),
            );
            &&& sums::total(after, sums::is(x)) - sums::total(before, sums::is(x)) == sums::total(
                added,
                sums::is(x),
            ) - sums::total(removed, sums::is(x))
            &&& added.len() <= 96
            &&& removed.len() <= 96
            &&& room::peopled(sq) ==> before.len() <= 256
            &&& room::peopled(r.board.sq()) ==> after.len() <= 256
        }),
        r.dirty_threats.list@ == board::move_records(sq, m, us),
        r.dirty_threats.list@.len() <= 96,
{
    let l = board::move_records(sq, m, us);
    let next = board::played(sq, m, us);
    let w = sums::is(x);
    capacity::law_records_fit(sq, m, us);
    balance::law_threats_balance(sq, m, us, threat_weight(perspective, ksq, w));
    lemma_kept(perspective, ksq, full_threats::active_threats(sq), w);
    lemma_kept(perspective, ksq, full_threats::active_threats(next), w);
    lemma_kept(perspective, ksq, full_threats::changed(l, true), w);
    lemma_kept(perspective, ksq, full_threats::changed(l, false), w);
    lemma_changed_len(l, true);
    lemma_changed_len(l, false);
    if room::peopled(sq) {
        room::law_threats_fit(sq);
    }
    if room::peopled(next) {
        lemma_next_valid(sq, m, us);
        room::law_threats_fit(next);
    }
}

// --- positions -------------------------------------------------------------------------------

/// The pieces of a position have what the sums need.
pub proof fn lemma_countable(p: Placement, perspective: Color)
    requires
        p.wf(),
    ensures
        accumulator::countable(p.sq(), perspective),
        0 <= board::king_of(p.sq(), perspective.index()),
        board::valid_squares(p.sq()),
{
    let sq = p.sq();
    let c = perspective.index();
    p.lemma_sq();
    assert forall|s: int| 0 <= s < 64 implies (#[trigger] sq[s] == 1 ==> bits::mem(p.pawns, s)) && (
    sq[s] == 9 ==> bits::mem(p.pawns, s)) by {
        assert(p.role_code(s) == p.role_code(s));
    }
    board::lemma_word_exists(full_threats::holding(sq, 1));
    board::lemma_word_exists(full_threats::holding(sq, 9));
    assert forall|s: int| #[trigger]
        bits::mem(pp_3wide::pawn_word(sq, 0), s) implies 8 <= s <= 55 by {
        assert(sq[s] == 1);
    }
    assert forall|s: int| #[trigger]
        bits::mem(pp_3wide::pawn_word(sq, 1), s) implies 8 <= s <= 55 by {
        assert(sq[s] == 9);
    }
    let kings = p.kings & p.side(perspective);
    assert(kings != 0) by {
        assert(bits::ones(0u64) == 0);
    }
    bits::lemma_lsb(kings);
    let k = bits::lsb(kings);
    bits::mem_and(p.kings, p.side(perspective), k);
    assert(p.role_code(k) == 6);
    assert(sq[k] == 8 * c + 6);
    let low = lowest_king(sq, c, 64);
    board::lemma_king_of(sq, c, low);
}

proof fn lemma_no_king_taken(pos: &Position, m: RawMove, perspective: Color)
    requires
        rules::step_fits(pos.facts_spec(), Step::of_spec(m)),
        Step::of_spec(m).raw_spec() == m,
    ensures
        pos.board_spec().sq()[m.to_sq()] != 8 * perspective.index() + 6,
        board::playable(pos.board_spec().sq(), m, pos.facts_spec().turn),
        balance::regular(pos.board_spec().sq(), m),
{
    let sq = pos.board_spec().sq();
    let to = m.to_sq();
    assert(Step::of_spec(m).to == to);
    if m.kind_spec() == CASTLE {
        assert(sq[to] == 8 * pos.facts_spec().turn.index() + 4);
    }
}

/// The pawns of a position stand on ranks 2 to 7.
proof fn lemma_pawns_in_range(p: Placement)
    requires
        p.wf(),
    ensures
        pawns_in_range(p.sq()),
{
    let sq = p.sq();
    p.lemma_sq();
    assert forall|s: int| 0 <= s < 64 && #[trigger] sq[s] as int % 8 == 1 implies 8 <= s <= 55 by {
        assert(p.role_code(s) == p.role_code(s));
        assert(bits::mem(p.pawns, s));
    }
}

/// What a move of a position reports is what the sums of the position can be
/// brought up to date with. A side whose king does not move needs no fresh sums,
/// and its king is where it was.
pub proof fn law_child_changes(
    pos: &Position,
    m: RawMove,
    child: &Position,
    perspective: Color,
    r: MoveDirties,
)
    requires
        pos.holds_facts(),
        child.holds_facts(),
        rules::step_fits(pos.facts_spec(), Step::of_spec(m)),
        Step::of_spec(m).raw_spec() == m,
        child.board_spec().sq() == board::played(
            pos.board_spec().sq(),
            m,
            pos.facts_spec().turn,
        ),
        board::describes(r, pos.board_spec().sq(), m, pos.facts_spec().turn),
    ensures
        accumulator::valid_changes(r.dirty_piece, r.dirty_threats, r.dirty_pawn_pairs),
        r.dirty_piece.pc == pos.board_spec().sq()[m.from_sq()],
        r.dirty_piece.pc != 8 * perspective.index() + 6 ==> board::king_of(
            child.board_spec().sq(),
            perspective.index(),
        ) == board::king_of(pos.board_spec().sq(), perspective.index()),
        0 <= board::king_of(pos.board_spec().sq(), perspective.index()) < 64,
{
    let sq = pos.board_spec().sq();
    let us = pos.facts_spec().turn;
    lemma_countable(pos.board_spec(), perspective);
    lemma_no_king_taken(pos, m, perspective);
    lemma_pawns_in_range(pos.board_spec());
    lemma_pawns_in_range(child.board_spec());
    law_changes_are_valid(sq, m, us, r);
    if sq[m.from_sq()] != 8 * perspective.index() + 6 {
        lemma_king_stays(sq, m, us, perspective);
    }
}

/// The board that a move yields is the board of the position after the move,
/// and the sums taken over from the position before it are its sums, for a side
/// whose king does not move.
#[verifier::spinoff_prover]
#[verifier::rlimit(60)]
pub proof fn law_child_sums(
    ft: &FeatureTransformer,
    pos: &Position,
    m: RawMove,
    child: &Position,
    perspective: Color,
    r: MoveDirties,
    parent_sums: Accumulator,
    child_sums: Accumulator,
)
    requires
        pos.holds_facts(),
        child.holds_facts(),
        rules::step_fits(pos.facts_spec(), Step::of_spec(m)),
        Step::of_spec(m).raw_spec() == m,
        child.board_spec().sq() == board::played(
            pos.board_spec().sq(),
            m,
            pos.facts_spec().turn,
        ),
        pos.board_spec().sq()[m.from_sq()] != 8 * perspective.index() + 6,
        board::describes(r, pos.board_spec().sq(), m, pos.facts_spec().turn),
        accumulator::refreshed(ft, parent_sums, perspective, pos.board_spec().sq()),
        accumulator::updated(
            ft,
            child_sums,
            parent_sums,
            perspective,
            board::king_of(pos.board_spec().sq(), perspective.index()),
            r.dirty_piece,
            r.dirty_threats,
            r.dirty_pawn_pairs,
        ),
    ensures
        r.board.sq() == child.board_spec().sq(),
        accumulator::refreshed(ft, child_sums, perspective, child.board_spec().sq()),
{
    let sq = pos.board_spec().sq();
    lemma_countable(pos.board_spec(), perspective);
    lemma_countable(child.board_spec(), perspective);
    lemma_no_king_taken(pos, m, perspective);
    room::lemma_peopled(pos.board_spec());
    room::lemma_peopled(child.board_spec());
    law_incremental_is_refresh(
        ft,
        sq,
        m,
        pos.facts_spec().turn,
        perspective,
        r,
        parent_sums,
        child_sums,
    );
}

/// Passing the turn leaves the board as it is, so the sums of the position before
/// are the sums of the position after.
pub proof fn law_null_move_keeps_sums(
    ft: &FeatureTransformer,
    pos: &Position,
    child: &Position,
    perspective: Color,
    sums: Accumulator,
)
    requires
        child.facts_spec() == rules::passed(pos.facts_spec()),
        accumulator::refreshed(ft, sums, perspective, pos.board_spec().sq()),
    ensures
        child.board_spec().sq() == pos.board_spec().sq(),
        accumulator::refreshed(ft, sums, perspective, child.board_spec().sq()),
{
}

} // verus!
