//! The random numbers that order openings and seed games: a stream that its seed
//! determines, in which no number comes twice.
use vstd::prelude::*;

verus! {

/// How far the state moves from one number to the next.
pub const GOLDEN: u64 = 0x9E37_79B9_7F4A_7C15;

/// A stream of random numbers.
#[derive(Copy, Clone, Debug, PartialEq, Eq, Structural)]
pub struct SplitMix64(pub u64);

/// The number that a state stands for.
pub open spec fn mixed(z: u64) -> u64 {
    let a = (z ^ (z >> 30)).wrapping_mul(0xBF58_476D_1CE4_E5B9);
    let b = (a ^ (a >> 27)).wrapping_mul(0x94D0_49BB_1331_11EB);
    b ^ (b >> 31)
}

/// The state after `n` numbers.
pub open spec fn advanced(seed: u64, n: nat) -> u64
    decreases n,
{
    if n == 0 {
        seed
    } else {
        advanced(seed, (n - 1) as nat).wrapping_add(GOLDEN)
    }
}

/// The number that a state stands for.
pub fn splitmix_mix(z: u64) -> (r: u64)
    ensures
        r == mixed(z),
{
    let a: u64 = (z ^ (z >> 30)).wrapping_mul(0xBF58_476D_1CE4_E5B9);
    let b: u64 = (a ^ (a >> 27)).wrapping_mul(0x94D0_49BB_1331_11EB);
    b ^ (b >> 31)
}

impl SplitMix64 {
    /// The next number.
    pub fn next(&mut self) -> (r: u64)
        ensures
            final(self).0 == old(self).0.wrapping_add(GOLDEN),
            r == mixed(final(self).0),
    {
        self.0 = self.0.wrapping_add(GOLDEN);
        splitmix_mix(self.0)
    }
}

// --- laws -------------------------------------------------------------------------------------------

proof fn lemma_further(seed: int, step: int, n: int)
    ensures
        ((seed + step * (n - 1)) % 0x1_0000_0000_0000_0000 + step) % 0x1_0000_0000_0000_0000 == (seed
            + step * n) % 0x1_0000_0000_0000_0000,
{
    let x = seed + step * (n - 1);
    assert(step * n == step * (n - 1) + step) by (nonlinear_arith);
    vstd::arithmetic::div_mod::lemma_add_mod_noop_right(step, x, 0x1_0000_0000_0000_0000);
}

/// The state after `n` numbers can be had at once.
pub proof fn law_advanced(seed: u64, n: nat)
    ensures
        advanced(seed, n) == (seed + GOLDEN * n) % 0x1_0000_0000_0000_0000,
    decreases n,
{
    if n > 0 {
        law_advanced(seed, (n - 1) as nat);
        lemma_further(seed as int, GOLDEN as int, n as int);
    }
}

/// Different states stand for different numbers.
pub proof fn law_mixed_distinct(x: u64, y: u64)
    requires
        mixed(x) == mixed(y),
    ensures
        x == y,
{
    let a = (x ^ (x >> 30)).wrapping_mul(0xBF58_476D_1CE4_E5B9);
    let b = (a ^ (a >> 27)).wrapping_mul(0x94D0_49BB_1331_11EB);
    let c = (y ^ (y >> 30)).wrapping_mul(0xBF58_476D_1CE4_E5B9);
    let d = (c ^ (c >> 27)).wrapping_mul(0x94D0_49BB_1331_11EB);
    assert(b ^ (b >> 31) == d ^ (d >> 31) ==> b == d) by (bit_vector);
    lemma_factor(
        a ^ (a >> 27),
        c ^ (c >> 27),
        0x94D0_49BB_1331_11EB,
        3573116690164977347,
        2077064247507883091,
    );
    assert(a ^ (a >> 27) == c ^ (c >> 27) ==> a == c) by (bit_vector);
    lemma_factor(
        x ^ (x >> 30),
        y ^ (y >> 30),
        0xBF58_476D_1CE4_E5B9,
        10871156337175269513,
        8125545580553827436,
    );
    assert(x ^ (x >> 30) == y ^ (y >> 30) ==> x == y) by (bit_vector);
}

/// Multiplying by a number with an inverse keeps numbers apart.
pub proof fn lemma_factor(x: u64, y: u64, c: u64, inverse: int, k: int)
    requires
        x.wrapping_mul(c) == y.wrapping_mul(c),
        c * inverse == k * 0x1_0000_0000_0000_0000 + 1,
    ensures
        x == y,
{
    lemma_undone(x as int, c as int, inverse, k);
    lemma_undone(y as int, c as int, inverse, k);
}

proof fn lemma_undone(x: int, c: int, inverse: int, k: int)
    requires
        0 <= x < 0x1_0000_0000_0000_0000,
        c * inverse == k * 0x1_0000_0000_0000_0000 + 1,
    ensures
        (((x * c) % 0x1_0000_0000_0000_0000) * inverse) % 0x1_0000_0000_0000_0000 == x,
{
    let m = 0x1_0000_0000_0000_0000int;
    vstd::arithmetic::div_mod::lemma_mul_mod_noop_left(x * c, inverse, m);
    assert((x * c) * inverse == x * (c * inverse)) by (nonlinear_arith);
    assert(x * (k * m + 1) == (x * k) * m + x) by (nonlinear_arith);
    vstd::arithmetic::div_mod::lemma_mod_multiples_vanish(x * k, x, m);
    vstd::arithmetic::div_mod::lemma_small_mod(x as nat, m as nat);
}

/// In the first 2^64 numbers of a stream no number comes twice.
pub proof fn law_numbers_distinct(seed: u64, i: nat, j: nat)
    requires
        i < 0x1_0000_0000_0000_0000,
        j < 0x1_0000_0000_0000_0000,
        mixed(advanced(seed, i)) == mixed(advanced(seed, j)),
    ensures
        i == j,
{
    let m = 0x1_0000_0000_0000_0000int;
    law_mixed_distinct(advanced(seed, i), advanced(seed, j));
    law_advanced(seed, i);
    law_advanced(seed, j);
    let a = i * GOLDEN;
    let b = j * GOLDEN;
    assert(GOLDEN * i == a && GOLDEN * j == b) by (nonlinear_arith)
        requires
            a == i * GOLDEN,
            b == j * GOLDEN,
    ;
    lemma_cancel(seed as int, a, b);
    lemma_undone(i as int, GOLDEN as int, 17428512612931826493, 10771413168148108919);
    lemma_undone(j as int, GOLDEN as int, 17428512612931826493, 10771413168148108919);
}

proof fn lemma_cancel(s: int, a: int, b: int)
    requires
        (s + a) % 0x1_0000_0000_0000_0000 == (s + b) % 0x1_0000_0000_0000_0000,
    ensures
        a % 0x1_0000_0000_0000_0000 == b % 0x1_0000_0000_0000_0000,
{
    let m = 0x1_0000_0000_0000_0000int;
    let k = (s + a) / m - (s + b) / m;
    assert(a == m * k + b);
    vstd::arithmetic::div_mod::lemma_mod_multiples_vanish(k, b, m);
}

} // verus!
