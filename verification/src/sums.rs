//! Sums over sequences and over ranges.
use vstd::prelude::*;
use crate::bits;

verus! {

/// The sum of the weights of the elements of `s`.
pub open spec fn total<T>(s: Seq<T>, w: spec_fn(T) -> int) -> int
    decreases s.len(),
{
    if s.len() == 0 {
        0
    } else {
        total(s.drop_last(), w) + w(s.last())
    }
}

/// The sum of `h` over the numbers below `n`.
pub open spec fn ranged(n: int, h: spec_fn(int) -> int) -> int
    decreases n,
{
    if n <= 0 {
        0
    } else {
        ranged(n - 1, h) + h(n - 1)
    }
}

/// The weight that counts `t`.
pub open spec fn is<T>(t: T) -> spec_fn(T) -> int {
    |x: T|
        if x == t {
            1int
        } else {
            0
        }
}

/// What the records of a square come to where the square belongs to `bb`.
pub open spec fn part<T>(bb: u64, rec: spec_fn(int) -> Seq<T>, w: spec_fn(T) -> int) -> spec_fn(
    int,
) -> int {
    |s: int|
        if bits::mem(bb, s) {
            total(rec(s), w)
        } else {
            0
        }
}

/// The sum over two sequences one after the other.
pub proof fn lemma_total_add<T>(a: Seq<T>, b: Seq<T>, w: spec_fn(T) -> int)
    ensures
        total(a + b, w) == total(a, w) + total(b, w),
    decreases b.len(),
{
    if b.len() == 0 {
        assert(a + b =~= a);
    } else {
        lemma_total_add(a, b.drop_last(), w);
        assert((a + b).drop_last() =~= a + b.drop_last());
    }
}

/// The sum over one element.
pub proof fn lemma_total_one<T>(x: T, w: spec_fn(T) -> int)
    ensures
        total(seq![x], w) == w(x),
        total(Seq::<T>::empty(), w) == 0,
{
    assert(seq![x].drop_last() =~= Seq::<T>::empty());
    assert(total(seq![x].drop_last(), w) == 0);
}

/// The sum without one element.
pub proof fn lemma_total_remove<T>(s: Seq<T>, i: int, w: spec_fn(T) -> int)
    requires
        0 <= i < s.len(),
    ensures
        total(s, w) == total(s.remove(i), w) + w(s[i]),
{
    let a = s.take(i);
    let b = s.skip(i + 1);
    assert(s =~= a + seq![s[i]] + b);
    assert(s.remove(i) =~= a + b);
    lemma_total_add(a + seq![s[i]], b, w);
    lemma_total_add(a, seq![s[i]], w);
    lemma_total_one(s[i], w);
    lemma_total_add(a, b, w);
}

/// An element that is counted occurs, and one that occurs is counted.
pub proof fn lemma_occurs<T>(s: Seq<T>, t: T)
    ensures
        total(s, is(t)) >= 0,
        total(s, is(t)) > 0 <==> exists|i: int| 0 <= i < s.len() && #[trigger] s[i] == t,
    decreases s.len(),
{
    if s.len() > 0 {
        let r = s.drop_last();
        lemma_occurs(r, t);
        if total(r, is(t)) > 0 {
            let i = choose|i: int| 0 <= i < r.len() && #[trigger] r[i] == t;
            assert(s[i] == t);
        }
        if exists|i: int| 0 <= i < s.len() && #[trigger] s[i] == t {
            let i = choose|i: int| 0 <= i < s.len() && #[trigger] s[i] == t;
            if i < r.len() {
                assert(r[i] == t);
            }
        }
    }
}

/// Sequences in which everything occurs equally often have the same sums.
pub proof fn lemma_same_counts<T>(x: Seq<T>, y: Seq<T>, w: spec_fn(T) -> int)
    requires
        forall|t: T| #[trigger] total(x, is(t)) == total(y, is(t)),
    ensures
        total(x, w) == total(y, w),
        x.len() == y.len(),
    decreases x.len(),
{
    if x.len() == 0 {
        if y.len() > 0 {
            lemma_occurs(y, y[0]);
            assert(total(x, is(y[0])) == 0);
        }
    } else {
        let t = x.last();
        lemma_occurs(x, t);
        assert(x[x.len() - 1] == t);
        lemma_occurs(y, t);
        assert(total(x, is(t)) == total(y, is(t)));
        let i = choose|i: int| 0 <= i < y.len() && #[trigger] y[i] == t;
        let x1 = x.drop_last();
        let y1 = y.remove(i);
        assert forall|u: T| #[trigger] total(x1, is(u)) == total(y1, is(u)) by {
            lemma_total_remove(y, i, is(u));
            assert(total(x, is(u)) == total(y, is(u)));
        }
        lemma_total_remove(y, i, w);
        lemma_same_counts(x1, y1, w);
    }
}

/// Sums of the same numbers.
pub proof fn lemma_ranged_same(n: int, g: spec_fn(int) -> int, h: spec_fn(int) -> int)
    requires
        forall|s: int| 0 <= s < n ==> #[trigger] g(s) == h(s),
    ensures
        ranged(n, g) == ranged(n, h),
    decreases n,
{
    if n > 0 {
        lemma_ranged_same(n - 1, g, h);
        assert(g(n - 1) == h(n - 1));
    }
}

/// Sums of numbers that differ in one place.
pub proof fn lemma_ranged_point(n: int, g: spec_fn(int) -> int, h: spec_fn(int) -> int, k: int)
    requires
        0 <= k < n,
        forall|s: int| 0 <= s < n && s != k ==> #[trigger] g(s) == h(s),
    ensures
        ranged(n, g) == ranged(n, h) + g(k) - h(k),
    decreases n,
{
    if k == n - 1 {
        lemma_ranged_same(n - 1, g, h);
    } else {
        lemma_ranged_point(n - 1, g, h, k);
        assert(g(n - 1) == h(n - 1));
    }
}

/// A sum of zeros.
pub proof fn lemma_ranged_zero(n: int, h: spec_fn(int) -> int)
    requires
        forall|s: int| 0 <= s < n ==> #[trigger] h(s) == 0,
    ensures
        ranged(n, h) == 0,
    decreases n,
{
    if n > 0 {
        lemma_ranged_zero(n - 1, h);
        assert(h(n - 1) == 0);
    }
}

/// The sum over the records of a set is the sum over its squares.
pub proof fn lemma_flat_total<T>(bb: u64, rec: spec_fn(int) -> Seq<T>, w: spec_fn(T) -> int)
    ensures
        total(bits::flat(bb, rec), w) == ranged(64, part(bb, rec, w)),
    decreases bb,
{
    if bb == 0 {
        assert forall|s: int| 0 <= s < 64 implies #[trigger] part(bb, rec, w)(s) == 0 by {
            bits::mem_zero(s);
        }
        lemma_ranged_zero(64, part(bb, rec, w));
    } else {
        bits::lemma_lsb(bb);
        let k = bits::lsb(bb);
        let r = bits::rest(bb);
        lemma_flat_total(r, rec, w);
        lemma_total_add(rec(k), bits::flat(r, rec), w);
        lemma_ranged_point(64, part(bb, rec, w), part(r, rec, w), k);
    }
}

/// Where only the records of one square weigh anything, the sum is theirs.
pub proof fn lemma_flat_at<T>(bb: u64, rec: spec_fn(int) -> Seq<T>, w: spec_fn(T) -> int, k: int)
    requires
        forall|q: int| q != k && bits::mem(bb, q) ==> total(#[trigger] rec(q), w) == 0,
    ensures
        total(bits::flat(bb, rec), w) == (if bits::mem(bb, k) {
            total(rec(k), w)
        } else {
            0
        }),
{
    lemma_flat_total(bb, rec, w);
    let none = |s: int| 0int;
    lemma_ranged_zero(64, none);
    if 0 <= k < 64 {
        lemma_ranged_point(64, part(bb, rec, w), none, k);
    } else {
        lemma_ranged_zero(64, part(bb, rec, w));
    }
}

// --- sums over squares -------------------------------------------------------------------

/// `f` on the squares of `bb`, 0 elsewhere.
pub open spec fn masked(bb: u64, f: spec_fn(int) -> int) -> spec_fn(int) -> int {
    |s: int|
        if bits::mem(bb, s) {
            f(s)
        } else {
            0
        }
}

/// The sum of `f` over the squares of `bb`.
pub open spec fn over(bb: u64, f: spec_fn(int) -> int) -> int {
    ranged(64, masked(bb, f))
}

/// The number of squares with a property.
pub open spec fn how_many(p: spec_fn(int) -> bool) -> int {
    ranged(64, flagged(p))
}

/// 1 on the squares with a property, 0 elsewhere.
pub open spec fn flagged(p: spec_fn(int) -> bool) -> spec_fn(int) -> int {
    |s: int|
        if p(s) {
            1int
        } else {
            0
        }
}

/// Taking the lowest square off a sum.
pub proof fn lemma_over_step(bb: u64, f: spec_fn(int) -> int)
    requires
        bb != 0,
    ensures
        over(bb, f) == f(bits::lsb(bb)) + over(bits::rest(bb), f),
{
    bits::lemma_lsb(bb);
    lemma_ranged_point(64, masked(bb, f), masked(bits::rest(bb), f), bits::lsb(bb));
}

/// The sum over no squares.
pub proof fn lemma_over_none(f: spec_fn(int) -> int)
    ensures
        over(0, f) == 0,
{
    assert forall|s: int| 0 <= s < 64 implies #[trigger] masked(0, f)(s) == 0 by {
        bits::mem_zero(s);
    }
    lemma_ranged_zero(64, masked(0, f));
}

/// A sum of terms of at most `m` in size.
pub proof fn lemma_over_bound(bb: u64, f: spec_fn(int) -> int, m: int)
    requires
        0 <= m,
        forall|s: int| #[trigger] bits::mem(bb, s) ==> -m <= f(s) <= m,
    ensures
        -(m * bits::ones(bb)) <= over(bb, f) <= m * bits::ones(bb),
    decreases bb,
{
    if bb == 0 {
        lemma_over_none(f);
        assert(m * 0 == 0) by (nonlinear_arith);
    } else {
        bits::lemma_lsb(bb);
        lemma_over_step(bb, f);
        lemma_over_bound(bits::rest(bb), f, m);
        let n = bits::ones(bits::rest(bb)) as int;
        assert(m * (1 + n) == m + m * n) by (nonlinear_arith);
        assert(bits::ones(bb) == 1 + n);
    }
}

/// The squares with a property, counted by their word.
pub proof fn lemma_how_many(w: u64, p: spec_fn(int) -> bool)
    requires
        forall|s: int| 0 <= s < 64 ==> #[trigger] bits::mem(w, s) == p(s),
    ensures
        how_many(p) == bits::ones(w),
        0 <= how_many(p) <= 64,
{
    lemma_ones_ranged(w);
    lemma_ranged_same(64, flagged(p), masked(w, |s: int| 1int));
    bits::lemma_ones_set(w);
}

/// The sum over a board does not change when the board is turned upside down.
pub proof fn lemma_ranged_upside(f: spec_fn(int) -> int, g: spec_fn(int) -> int)
    requires
        forall|s: int| 0 <= s < 64 ==> #[trigger] f(s) == g(56 - 8 * (s / 8) + s % 8),
    ensures
        ranged(64, f) == ranged(64, g),
{
    lemma_rows(f);
    lemma_rows(g);
    lemma_row_upside(f, g, 0);
    lemma_row_upside(f, g, 1);
    lemma_row_upside(f, g, 2);
    lemma_row_upside(f, g, 3);
    lemma_row_upside(f, g, 4);
    lemma_row_upside(f, g, 5);
    lemma_row_upside(f, g, 6);
    lemma_row_upside(f, g, 7);
}

proof fn lemma_row_upside(f: spec_fn(int) -> int, g: spec_fn(int) -> int, r: int)
    requires
        forall|s: int| 0 <= s < 64 ==> #[trigger] f(s) == g(56 - 8 * (s / 8) + s % 8),
        0 <= r < 8,
    ensures
        row(f, r) == row(g, 7 - r),
{
    lemma_cell(f, g, r, 0);
    lemma_cell(f, g, r, 1);
    lemma_cell(f, g, r, 2);
    lemma_cell(f, g, r, 3);
    lemma_cell(f, g, r, 4);
    lemma_cell(f, g, r, 5);
    lemma_cell(f, g, r, 6);
    lemma_cell(f, g, r, 7);
}

proof fn lemma_cell(f: spec_fn(int) -> int, g: spec_fn(int) -> int, r: int, k: int)
    requires
        forall|s: int| 0 <= s < 64 ==> #[trigger] f(s) == g(56 - 8 * (s / 8) + s % 8),
        0 <= r < 8,
        0 <= k < 8,
    ensures
        f(8 * r + k) == g(8 * (7 - r) + k),
{
    let s = 8 * r + k;
    assert(s / 8 == r && s % 8 == k);
    assert(f(s) == g(56 - 8 * (s / 8) + s % 8));
}

/// The sum over a rank.
spec fn row(f: spec_fn(int) -> int, r: int) -> int {
    f(8 * r) + f(8 * r + 1) + f(8 * r + 2) + f(8 * r + 3) + f(8 * r + 4) + f(8 * r + 5) + f(
        8 * r + 6,
    ) + f(8 * r + 7)
}

proof fn lemma_row(f: spec_fn(int) -> int, r: int)
    requires
        0 <= r,
    ensures
        ranged(8 * r + 8, f) == ranged(8 * r, f) + row(f, r),
{
    reveal_with_fuel(ranged, 9);
}

proof fn lemma_rows(f: spec_fn(int) -> int)
    ensures
        ranged(64, f) == row(f, 0) + row(f, 1) + row(f, 2) + row(f, 3) + row(f, 4) + row(f, 5) + row(
            f,
            6,
        ) + row(f, 7),
{
    assert(ranged(0, f) == 0);
    lemma_row(f, 0);
    lemma_row(f, 1);
    lemma_row(f, 2);
    lemma_row(f, 3);
    lemma_row(f, 4);
    lemma_row(f, 5);
    lemma_row(f, 6);
    lemma_row(f, 7);
}

/// There are sixty-four squares.
pub proof fn lemma_how_many_range(p: spec_fn(int) -> bool)
    ensures
        0 <= how_many(p) <= 64,
{
    lemma_flagged_range(64, p);
}

proof fn lemma_flagged_range(n: int, p: spec_fn(int) -> bool)
    requires
        0 <= n,
    ensures
        0 <= ranged(n, flagged(p)) <= n,
    decreases n,
{
    if n > 0 {
        lemma_flagged_range(n - 1, p);
    }
}

proof fn lemma_ones_ranged(w: u64)
    ensures
        over(w, |s: int| 1int) == bits::ones(w),
    decreases w,
{
    let one = |s: int| 1int;
    if w == 0 {
        lemma_over_none(one);
    } else {
        bits::lemma_lsb(w);
        lemma_over_step(w, one);
        lemma_ones_ranged(bits::rest(w));
    }
}

/// The sum of two sums.
pub proof fn lemma_ranged_add(n: int, f: spec_fn(int) -> int, g: spec_fn(int) -> int, h: spec_fn(int) -> int)
    requires
        forall|s: int| 0 <= s < n ==> #[trigger] h(s) == f(s) + g(s),
    ensures
        ranged(n, h) == ranged(n, f) + ranged(n, g),
    decreases n,
{
    if n > 0 {
        lemma_ranged_add(n - 1, f, g, h);
        assert(h(n - 1) == f(n - 1) + g(n - 1));
    }
}

/// A multiple of a sum.
pub proof fn lemma_ranged_scale(n: int, f: spec_fn(int) -> int, x: int, h: spec_fn(int) -> int)
    requires
        forall|s: int| 0 <= s < n ==> #[trigger] h(s) == f(s) * x,
    ensures
        ranged(n, h) == ranged(n, f) * x,
    decreases n,
{
    if n > 0 {
        lemma_ranged_scale(n - 1, f, x, h);
        assert(h(n - 1) == f(n - 1) * x);
        let a = ranged(n - 1, f);
        let b = f(n - 1);
        assert(a * x + b * x == (a + b) * x) by (nonlinear_arith);
    } else {
        assert(0 * x == 0) by (nonlinear_arith);
    }
}

/// The sum of two sums over the squares of a set.
pub proof fn lemma_over_add(w: u64, f: spec_fn(int) -> int, g: spec_fn(int) -> int, h: spec_fn(int) -> int)
    requires
        forall|s: int| #[trigger] bits::mem(w, s) ==> h(s) == f(s) + g(s),
    ensures
        over(w, h) == over(w, f) + over(w, g),
{
    lemma_ranged_add(64, masked(w, f), masked(w, g), masked(w, h));
}

/// A number for each square of a set with a property.
pub proof fn lemma_over_flag(w: u64, p: spec_fn(int) -> bool, x: int, h: spec_fn(int) -> int)
    requires
        forall|s: int| #[trigger] p(s) ==> bits::mem(w, s),
        forall|s: int| #[trigger] bits::mem(w, s) ==> h(s) == (if p(s) {
            x
        } else {
            0
        }),
    ensures
        over(w, h) == how_many(p) * x,
{
    assert forall|s: int| 0 <= s < 64 implies #[trigger] masked(w, h)(s) == flagged(p)(s) * x by {
        assert(1 * x == x && 0 * x == 0) by (nonlinear_arith);
        if p(s) {
            assert(bits::mem(w, s));
        }
    }
    lemma_ranged_scale(64, flagged(p), x, masked(w, h));
}

/// Properties that agree on the board hold of as many squares.
pub proof fn lemma_how_many_same(p: spec_fn(int) -> bool, q: spec_fn(int) -> bool)
    requires
        forall|s: int| 0 <= s < 64 ==> #[trigger] p(s) == q(s),
    ensures
        how_many(p) == how_many(q),
{
    lemma_ranged_same(64, flagged(p), flagged(q));
}

} // verus!
