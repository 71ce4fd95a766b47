//! Sets of squares held in a 64-bit word: bit `s` stands for square `s`
//! (`a1` = 0 … `h8` = 63).
use vstd::prelude::*;

verus! {

/// Square `s` belongs to the set `bb`.
pub open spec fn mem(bb: u64, s: int) -> bool {
    0 <= s < 64 && (bb >> (s as u64)) & 1u64 == 1u64
}

/// The lowest square of a non-empty set.
pub open spec fn lsb(bb: u64) -> int {
    vstd::std_specs::bits::u64_trailing_zeros(bb) as int
}

/// The set without its lowest square.
pub open spec fn rest(bb: u64) -> u64 {
    bb & ((bb - 1) as u64)
}

/// The number of squares in the set.
pub open spec fn ones(bb: u64) -> nat
    decreases bb,
{
    if bb == 0 {
        0
    } else {
        proof {
            lemma_lsb(bb);
        }
        1 + ones(rest(bb))
    }
}

/// The set as a mathematical set of squares.
pub open spec fn squares(bb: u64) -> Set<int> {
    Set::new(|s: int| mem(bb, s))
}

/// The records `rec(s)` of the squares `s` of `bb`, in ascending order of the
/// squares.
pub open spec fn flat<T>(bb: u64, rec: spec_fn(int) -> Seq<T>) -> Seq<T>
    decreases bb,
{
    if bb == 0 {
        Seq::empty()
    } else {
        proof {
            lemma_lsb(bb);
        }
        rec(lsb(bb)) + flat(rest(bb), rec)
    }
}

/// The bit operations, bit by bit.
proof fn lemma_bitwise(a: u64, b: u64, i: u64)
    by (bit_vector)
    requires
        i < 64,
    ensures
        ((a | b) >> i) & 1u64 == 1u64 <==> ((a >> i) & 1u64 == 1u64 || (b >> i) & 1u64 == 1u64),
        ((a & b) >> i) & 1u64 == 1u64 <==> ((a >> i) & 1u64 == 1u64 && (b >> i) & 1u64 == 1u64),
        ((a ^ b) >> i) & 1u64 == 1u64 <==> ((a >> i) & 1u64 == 1u64) != ((b >> i) & 1u64 == 1u64),
        ((!a) >> i) & 1u64 == 1u64 <==> (a >> i) & 1u64 != 1u64,
        (0u64 >> i) & 1u64 != 1u64,
        a != b ==> a ^ b != 0,
{
}

/// The shifts, bit by bit.
proof fn lemma_shifted(a: u64, k: u64, i: u64)
    by (bit_vector)
    requires
        i < 64,
        k < 64,
    ensures
        ((1u64 << k) >> i) & 1u64 == 1u64 <==> k == i,
        k <= i ==> ((a << k) >> i) & 1u64 == (a >> ((i - k) as u64)) & 1u64,
        i < k ==> ((a << k) >> i) & 1u64 == 0u64,
        i + k < 64 ==> ((a >> k) >> i) & 1u64 == (a >> ((i + k) as u64)) & 1u64,
        i + k >= 64 ==> ((a >> k) >> i) & 1u64 == 0u64,
{
}

pub broadcast proof fn mem_or(a: u64, b: u64, s: int)
    ensures
        #[trigger] mem(a | b, s) == (mem(a, s) || mem(b, s)),
{
    if 0 <= s < 64 {
        lemma_bitwise(a, b, s as u64);
    }
}

pub broadcast proof fn mem_and(a: u64, b: u64, s: int)
    ensures
        #[trigger] mem(a & b, s) == (mem(a, s) && mem(b, s)),
{
    if 0 <= s < 64 {
        lemma_bitwise(a, b, s as u64);
    }
}

pub broadcast proof fn mem_xor(a: u64, b: u64, s: int)
    ensures
        #[trigger] mem(a ^ b, s) == (mem(a, s) != mem(b, s)),
{
    if 0 <= s < 64 {
        lemma_bitwise(a, b, s as u64);
    }
}

pub broadcast proof fn mem_not(a: u64, s: int)
    ensures
        #[trigger] mem(!a, s) == (0 <= s < 64 && !mem(a, s)),
{
    if 0 <= s < 64 {
        lemma_bitwise(a, a, s as u64);
    }
}

pub broadcast proof fn mem_bit(i: u64, s: int)
    requires
        i < 64,
    ensures
        #[trigger] mem(1u64 << i, s) == (s == i),
{
    if 0 <= s < 64 {
        lemma_shifted(0, i, s as u64);
    }
}

pub broadcast proof fn mem_zero(s: int)
    ensures
        !#[trigger] mem(0u64, s),
{
    if 0 <= s < 64 {
        lemma_bitwise(0, 0, s as u64);
    }
}

/// Shifting the word up by `k` moves every square `k` places on.
pub broadcast proof fn mem_shl(a: u64, k: u64, s: int)
    requires
        k < 64,
    ensures
        #[trigger] mem(a << k, s) == (s < 64 && mem(a, s - k)),
{
    if 0 <= s < 64 {
        lemma_shifted(a, k, s as u64);
    }
}

/// Shifting the word down by `k` moves every square `k` places back.
pub broadcast proof fn mem_shr(a: u64, k: u64, s: int)
    requires
        k < 64,
    ensures
        #[trigger] mem(a >> k, s) == (0 <= s && mem(a, s + k)),
{
    if 0 <= s < 64 {
        lemma_shifted(a, k, s as u64);
    }
}

pub broadcast group group_mem {
    mem_or,
    mem_and,
    mem_xor,
    mem_not,
    mem_bit,
    mem_zero,
}

/// What taking the lowest square off does.
pub proof fn lemma_lsb(bb: u64)
    requires
        bb != 0,
    ensures
        0 <= lsb(bb) < 64,
        mem(bb, lsb(bb)),
        forall|s: int| #[trigger] mem(bb, s) ==> lsb(bb) <= s,
        forall|s: int| #[trigger] mem(rest(bb), s) == (mem(bb, s) && s != lsb(bb)),
        rest(bb) < bb,
{
    vstd::std_specs::bits::axiom_u64_trailing_zeros(bb);
    let t = vstd::std_specs::bits::u64_trailing_zeros(bb) as u64;
    assert(bb << ((64 - t) as u64) == 0);
    assert forall|s: int| #[trigger] mem(bb, s) implies lsb(bb) <= s by {
        let i = s as u64;
        if s < lsb(bb) {
            assert((bb >> i) & 1u64 == 0u64);
        }
    }
    assert forall|s: int| #[trigger] mem(rest(bb), s) == (mem(bb, s) && s != lsb(bb)) by {
        if 0 <= s < 64 {
            let i = s as u64;
            assert(((bb & ((bb - 1) as u64)) >> i) & 1u64 == 1u64 <==> ((bb >> i) & 1u64 == 1u64 && i
                != t)) by (bit_vector)
                requires
                    i < 64,
                    t < 64,
                    bb != 0,
                    (bb >> t) & 1u64 == 1u64,
                    bb << ((64 - t) as u64) == 0,
            ;
        }
    }
    assert(bb != 0 ==> bb & ((bb - 1) as u64) < bb) by (bit_vector);
}

/// Two words with the same squares are the same word.
pub proof fn lemma_ext(a: u64, b: u64)
    requires
        forall|s: int| 0 <= s < 64 ==> mem(a, s) == mem(b, s),
    ensures
        a == b,
{
    if a != b {
        lemma_bitwise(a, b, 0);
        lemma_lsb(a ^ b);
        mem_xor(a, b, lsb(a ^ b));
    }
}

/// A non-empty word has a square.
pub proof fn lemma_nonzero(a: u64)
    ensures
        a == 0 <==> (forall|s: int| !mem(a, s)),
{
    broadcast use mem_zero;

    if a != 0 {
        lemma_lsb(a);
    }
}

/// The count of a word is the size of its set.
pub proof fn lemma_ones_set(bb: u64)
    ensures
        squares(bb).finite(),
        ones(bb) == squares(bb).len(),
        ones(bb) <= 64,
    decreases bb,
{
    broadcast use mem_zero;

    let all = vstd::set_lib::set_int_range(0, 64);
    vstd::set_lib::lemma_int_range(0, 64);
    assert(squares(bb).subset_of(all));
    vstd::set_lib::lemma_len_subset(squares(bb), all);
    if bb == 0 {
        assert(squares(bb) =~= Set::empty());
    } else {
        lemma_lsb(bb);
        lemma_ones_set(rest(bb));
        assert(squares(bb) =~= squares(rest(bb)).insert(lsb(bb)));
    }
}

/// Adding a square that was absent raises the count by one.
pub proof fn lemma_ones_insert(a: u64, b: u64, t: int)
    requires
        0 <= t < 64,
        !mem(a, t),
        forall|s: int| #[trigger] mem(b, s) == (mem(a, s) || s == t),
    ensures
        ones(b) == ones(a) + 1,
{
    lemma_ones_set(a);
    lemma_ones_set(b);
    assert(squares(b) =~= squares(a).insert(t));
}

/// A larger set counts at least as many squares.
pub proof fn lemma_ones_mono(a: u64, b: u64)
    requires
        forall|s: int| #[trigger] mem(a, s) ==> mem(b, s),
    ensures
        ones(a) <= ones(b),
{
    lemma_ones_set(a);
    lemma_ones_set(b);
    assert(squares(a).subset_of(squares(b)));
    vstd::set_lib::lemma_len_subset(squares(a), squares(b));
}

/// Sets without a common square count up.
pub proof fn lemma_ones_disjoint(a: u64, b: u64)
    requires
        forall|s: int| !(#[trigger] mem(a, s) && mem(b, s)),
    ensures
        ones(a | b) == ones(a) + ones(b),
{
    broadcast use group_mem;

    lemma_ones_set(a);
    lemma_ones_set(b);
    lemma_ones_set(a | b);
    assert(squares(a | b) =~= squares(a).union(squares(b)));
    assert(squares(a).disjoint(squares(b)));
    vstd::set_lib::lemma_set_disjoint_lens(squares(a), squares(b));
}

/// A set with the square `s` has more than one square if it has another.
pub proof fn lemma_ones_another(a: u64, s: int)
    requires
        mem(a, s),
    ensures
        ones(a) > 1 <==> exists|t: int| #[trigger] mem(a, t) && t != s,
{
    broadcast use group_mem;

    let b = a & !(1u64 << (s as u64));
    lemma_ones_insert(b, a, s);
    lemma_ones_set(b);
    lemma_nonzero(b);
    if b != 0 {
        lemma_lsb(b);
        assert(mem(a, lsb(b)));
    }
    if exists|t: int| #[trigger] mem(a, t) && t != s {
        let t = choose|t: int| #[trigger] mem(a, t) && t != s;
        assert(mem(b, t));
    }
}

/// A set whose squares can be told apart by numbers below `n` has at most `n`
/// squares.
pub proof fn lemma_ones_numbered(bb: u64, f: spec_fn(int) -> int, n: int)
    requires
        0 <= n,
        forall|s: int| #[trigger] mem(bb, s) ==> 0 <= f(s) < n,
        forall|s: int, t: int|
            #![trigger mem(bb, s), mem(bb, t)]
            mem(bb, s) && mem(bb, t) && f(s) == f(t) ==> s == t,
    ensures
        ones(bb) <= n,
{
    let all = vstd::set_lib::set_int_range(0, n);
    vstd::set_lib::lemma_int_range(0, n);
    lemma_ones_set(bb);
    let image = squares(bb).map(f);
    assert(image.subset_of(all));
    vstd::set_lib::lemma_len_subset(image, all);
    assert(vstd::relations::injective_on(f, squares(bb))) by {
        assert forall|s: int, t: int|
            #![trigger f(s), f(t)]
            squares(bb).contains(s) && squares(bb).contains(t) && f(s) == f(t) implies s == t by {
            assert(mem(bb, s) && mem(bb, t));
        }
    }
    vstd::set_lib::lemma_map_size(squares(bb), image, f);
}

/// What holds of the records of every square holds of all records.
pub proof fn lemma_flat_all<T>(bb: u64, rec: spec_fn(int) -> Seq<T>, p: spec_fn(T) -> bool)
    requires
        forall|q: int, i: int|
            mem(bb, q) && 0 <= i < rec(q).len() ==> p(#[trigger] rec(q)[i]),
    ensures
        forall|i: int| 0 <= i < flat(bb, rec).len() ==> p(#[trigger] flat(bb, rec)[i]),
    decreases bb,
{
    if bb != 0 {
        lemma_lsb(bb);
        lemma_flat_all(rest(bb), rec, p);
        let head = rec(lsb(bb));
        let tail = flat(rest(bb), rec);
        assert forall|i: int| 0 <= i < flat(bb, rec).len() implies p(#[trigger] flat(bb, rec)[i]) by {
            if i < head.len() {
                assert(p(rec(lsb(bb))[i]));
            } else {
                assert(flat(bb, rec)[i] == tail[i - head.len()]);
            }
        }
    }
}

/// The number of records of a set is at most `m` a square.
pub proof fn lemma_flat_len<T>(bb: u64, rec: spec_fn(int) -> Seq<T>, m: nat)
    requires
        forall|q: int| mem(bb, q) ==> (#[trigger] rec(q)).len() <= m,
    ensures
        flat(bb, rec).len() <= m * ones(bb),
    decreases bb,
{
    if bb != 0 {
        lemma_lsb(bb);
        lemma_flat_len(rest(bb), rec, m);
        assert(m * (1 + ones(rest(bb))) == m + m * ones(rest(bb))) by (nonlinear_arith);
    }
}

/// The first `n` elements, or all where there are fewer.
pub open spec fn capped<T>(s: Seq<T>, n: int) -> Seq<T> {
    if s.len() <= n {
        s
    } else {
        s.take(n)
    }
}

/// Appending to a capped sequence and capping again is capping once.
pub proof fn lemma_capped<T>(a: Seq<T>, b: Seq<T>, n: int)
    requires
        0 <= n,
    ensures
        capped(capped(a, n) + b, n) == capped(a + b, n),
{
    assert(capped(capped(a, n) + b, n) =~= capped(a + b, n));
}

/// The number of squares in `bb`.
pub fn count(bb: u64) -> (r: u32)
    ensures
        r == ones(bb),
        r <= 64,
{
    let mut b: u64 = bb;
    let mut n: u32 = 0;
    proof {
        lemma_ones_set(bb);
    }
    while b != 0
        invariant
            n + ones(b) == ones(bb),
            ones(bb) <= 64,
        decreases b,
    {
        proof {
            lemma_lsb(b);
        }
        b = b & (b - 1);
        n = n + 1;
    }
    n
}

/// Whether square `s` belongs to `bb`.
pub fn contains(bb: u64, s: usize) -> (r: bool)
    ensures
        r == mem(bb, s as int),
{
    s < 64 && (bb >> (s as u64)) & 1u64 == 1u64
}

/// A set meets another.
pub fn meets(a: u64, b: u64) -> (r: bool)
    ensures
        r == (exists|t: int| #[trigger] mem(a, t) && mem(b, t)),
{
    broadcast use mem_and;

    proof {
        lemma_nonzero(a & b);
        if a & b != 0 {
            let t = choose|t: int| mem(a & b, t);
            assert(mem(a, t));
        }
        if exists|t: int| #[trigger] mem(a, t) && mem(b, t) {
            let t = choose|t: int| #[trigger] mem(a, t) && mem(b, t);
            assert(mem(a & b, t));
        }
    }
    a & b != 0
}

} // verus!
