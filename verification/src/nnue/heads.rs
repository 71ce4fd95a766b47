//! What the heads of a network make of their inputs.
use vstd::prelude::*;
use crate::arith;
use crate::nnue::accumulator;
use crate::nnue::accumulator::Accumulator;
use crate::nnue::board;
use crate::nnue::network::{AffineModel, FeatureTransformer, LayerStack, Network, StackModel};
use crate::nnue::network;
use crate::nnue::types::Color;
use crate::sums;

verus! {

// --- one layer -------------------------------------------------------------------------------

/// The size of a weighted sum.
proof fn lemma_dot_size(weights: Seq<i8>, row: int, input: Seq<u8>, n: int)
    requires
        0 <= n,
    ensures
        -32640 * n <= network::dot(weights, row, input, n) <= 32640 * n,
    decreases n,
{
    if n > 0 {
        lemma_dot_size(weights, row, input, n - 1);
        let w = weights[row + n - 1] as int;
        let x = input[n - 1] as int;
        assert(-32640 <= w * x <= 32640) by (nonlinear_arith)
            requires
                -128 <= w <= 127,
                0 <= x <= 255,
        ;
    }
}

/// One input of a weighted sum.
proof fn lemma_dot_input(weights: Seq<i8>, row: int, input: Seq<u8>, n: int, i: int, v: u8)
    requires
        0 <= i < input.len(),
        n <= input.len(),
    ensures
        network::dot(weights, row, input.update(i, v), n) == network::dot(weights, row, input, n)
            + (if i < n {
            weights[row + i] * (v - input[i])
        } else {
            0
        }),
    decreases n,
{
    if n > 0 {
        lemma_dot_input(weights, row, input, n - 1, i, v);
        if i == n - 1 {
            let w = weights[row + i] as int;
            let a = input[i] as int;
            let b = v as int;
            assert(w * b == w * a + w * (b - a)) by (nonlinear_arith);
        }
    }
}

/// A weighted sum in which one weight counts.
proof fn lemma_dot_one(weights: Seq<i8>, row: int, input: Seq<u8>, n: int, i: int)
    requires
        0 <= i,
        forall|k: int| 0 <= k < n && k != i ==> #[trigger] weights[row + k] == 0,
    ensures
        network::dot(weights, row, input, n) == (if i < n {
            weights[row + i] * input[i]
        } else {
            0
        }),
    decreases n,
{
    if n > 0 {
        lemma_dot_one(weights, row, input, n - 1, i);
        let x = input[n - 1] as int;
        assert(0 * x == 0) by (nonlinear_arith);
        if i != n - 1 {
            assert(weights[row + (n - 1)] == 0);
        }
    }
}

/// Two numbers are the same up to a multiple of 2^32.
pub open spec fn alike(a: int, b: int) -> bool {
    (a - b) % 4294967296 == 0
}

/// Changing one input of a layer moves every output by that much of the weight
/// between the two, and changing a bias moves its output by as much. A row of
/// weights is as long as the layer has inputs.
pub proof fn law_layer_is_linear(
    m: AffineModel,
    moved: AffineModel,
    n: int,
    input: Seq<u8>,
    i: int,
    v: u8,
    j: int,
)
    requires
        0 <= i < n <= input.len(),
        n % 32 == 0,
        moved.weights == m.weights,
    ensures
        alike(
            network::layer_out(m, n, input.update(i, v), j),
            network::layer_out(m, n, input, j) + m.weights[j * n + i] * (v - input[i]),
        ),
        alike(
            network::layer_out(moved, n, input, j),
            network::layer_out(m, n, input, j) + moved.biases[j] - m.biases[j],
        ),
{
    assert(network::padded(n) == n);
    lemma_dot_input(m.weights, j * n, input, n, i, v);
}

// --- activations -----------------------------------------------------------------------------

/// The second half of the activations is the outputs in steps of 2^bits, from none
/// up to 127.
pub proof fn law_clipped(x: i32)
    ensures
        ({
            let y = network::clipped(x, 7);
            &&& y <= 127
            &&& y < 127 ==> x < 128 * (y + 1)
            &&& y > 0 ==> 128 * y <= x
        }),
        ({
            let y = network::clipped(x, 6);
            &&& y <= 127
            &&& y < 127 ==> x < 64 * (y + 1)
            &&& y > 0 ==> 64 * y <= x
        }),
{
    let a: i32 = x >> 7i32;
    assert(128 * a <= x && x < 128 * a + 128) by (bit_vector)
        requires
            a == x >> 7i32,
    ;
    let b: i32 = x >> 6i32;
    assert(64 * b <= x && x < 64 * b + 64) by (bit_vector)
        requires
            b == x >> 6i32,
    ;
}

/// The first half of the activations is the squares of the outputs in steps of
/// 2^21, or of 2^19 behind the second layer, up to 127.
pub proof fn law_squared(x: i32)
    ensures
        ({
            let y = network::sqr_clipped(x, 7);
            &&& y <= 127
            &&& y < 127 ==> x * x < 2097152 * (y + 1)
            &&& 2097152 * y <= x * x
        }),
        ({
            let y = network::sqr_clipped(x, 6);
            &&& y <= 127
            &&& y < 127 ==> x * x < 524288 * (y + 1)
            &&& 524288 * y <= x * x
        }),
{
    assert(0 <= x * x <= 0x4000_0000_0000_0000) by (nonlinear_arith)
        requires
            -0x8000_0000 <= x <= 0x7fff_ffff,
    ;
    let q: u64 = (x * x) as u64;
    assert(q >> 21u64 == q / 2097152) by (bit_vector);
    assert(q >> 19u64 == q / 524288) by (bit_vector);
}

/// The activations of a layer: the squares first, which do not tell a number from
/// its opposite, then the outputs themselves, of which those below zero count
/// for nothing.
pub proof fn law_activations(x: Seq<i32>, y: Seq<i32>, i: int)
    requires
        0 <= i < 32,
        x.len() == 32,
        y.len() == 32,
        y[i] == -x[i],
    ensures
        network::activations(x, 7).len() == 64,
        network::activations(x, 6).len() == 64,
        network::activations(x, 7)[i] == network::activations(y, 7)[i],
        network::activations(x, 6)[i] == network::activations(y, 6)[i],
        x[i] <= 0 ==> network::activations(x, 7)[32 + i] == 0 && network::activations(x, 6)[32 + i]
            == 0,
        x[i] >= 16256 ==> network::activations(x, 7)[32 + i] == 127 && network::activations(
            x,
            6,
        )[32 + i] == 127,
{
    law_clipped(x[i]);
    let a = x[i] as int;
    let b = y[i] as int;
    assert(a * a == b * b) by (nonlinear_arith)
        requires
            b == -a,
    ;
}

// --- a head ----------------------------------------------------------------------------------

/// The three layers have the sizes of a head.
pub open spec fn shaped(m: StackModel) -> bool {
    &&& m.fc_0.biases.len() == 32 && m.fc_0.weights.len() == 32768
    &&& m.fc_1.biases.len() == 32 && m.fc_1.weights.len() == 2048
    &&& m.fc_2.biases.len() == 1 && m.fc_2.weights.len() == 128
}

/// The biases that reach the output straight away leave room in thirty-two bits.
pub open spec fn roomy(m: StackModel) -> bool {
    &&& -0x2000_0000 <= m.fc_0.biases[30] <= 0x2000_0000
    &&& -0x2000_0000 <= m.fc_0.biases[31] <= 0x2000_0000
    &&& -0x2000_0000 <= m.fc_2.biases[0] <= 0x2000_0000
}

/// What the last layer sees.
spec fn seen(m: StackModel, t: Seq<u8>) -> Seq<u8> {
    let a0 = network::activations(network::layer(m.fc_0, 1024, 32, t), 7);
    a0 + network::activations(network::layer(m.fc_1, 64, 32, a0), 6)
}

/// The output of a head in steps of its last layer.
spec fn steps(m: StackModel, t: Seq<u8>) -> int {
    m.fc_2.biases[0] + network::dot(m.fc_2.weights, 0, seen(m, t), 128) + m.fc_0.biases[30]
        + network::dot(m.fc_0.weights, 30720, t, 1024) - m.fc_0.biases[31] - network::dot(
        m.fc_0.weights,
        31744,
        t,
        1024,
    )
}

proof fn lemma_steps(m: StackModel, t: Seq<u8>)
    requires
        shaped(m),
        roomy(m),
    ensures
        network::forward(m, t) == arith::trunc_div(steps(m, t) * 9600, 16384),
{
    lemma_dot_size(m.fc_2.weights, 0, seen(m, t), 128);
    lemma_dot_size(m.fc_0.weights, 30720, t, 1024);
    lemma_dot_size(m.fc_0.weights, 31744, t, 1024);
    let x0 = network::layer(m.fc_0, 1024, 32, t);
    let x2 = network::layer(m.fc_2, 128, 1, seen(m, t));
    assert(network::padded(1024) == 1024 && network::padded(128) == 128);
    assert(x0[30] == m.fc_0.biases[30] + network::dot(m.fc_0.weights, 30720, t, 1024));
    assert(x0[31] == m.fc_0.biases[31] + network::dot(m.fc_0.weights, 31744, t, 1024));
    assert(x2[0] == m.fc_2.biases[0] + network::dot(m.fc_2.weights, 0, seen(m, t), 128));
}

/// A larger bias of the last layer never gives a smaller output: a step of the last
/// layer is worth 9600 / 16384 to the side to move, up to rounding.
pub proof fn law_head_grows(m: StackModel, n: StackModel, t: Seq<u8>)
    requires
        shaped(m),
        shaped(n),
        roomy(m),
        roomy(n),
        n.fc_0 == m.fc_0,
        n.fc_1 == m.fc_1,
        n.fc_2.weights == m.fc_2.weights,
        m.fc_2.biases[0] <= n.fc_2.biases[0],
    ensures
        network::forward(m, t) <= network::forward(n, t),
        ({
            let steps = n.fc_2.biases[0] - m.fc_2.biases[0];
            let more = network::forward(n, t) - network::forward(m, t);
            9600 * steps - 32768 <= 16384 * more <= 9600 * steps + 16384
        }),
{
    lemma_steps(m, t);
    lemma_steps(n, t);
    assert(seen(m, t) == seen(n, t));
    lemma_rounded(steps(m, t), steps(n, t));
}

proof fn lemma_rounded(a: int, b: int)
    requires
        a <= b,
    ensures
        ({
            let x = arith::trunc_div(a * 9600, 16384);
            let y = arith::trunc_div(b * 9600, 16384);
            &&& x <= y
            &&& 9600 * (b - a) - 32768 <= 16384 * (y - x) <= 9600 * (b - a) + 16384
        }),
{
}

/// A head whose first and last layers have no weights puts out its biases: 9600 for
/// 16384 in the last layer. The last two units of the first layer pass it by, one
/// for and one against.
pub proof fn law_head_unit(m: StackModel, t: Seq<u8>, k: int)
    requires
        shaped(m),
        roomy(m),
        forall|i: int| 0 <= i < 32768 ==> #[trigger] m.fc_0.weights[i] == 0,
        forall|i: int| 0 <= i < 128 ==> #[trigger] m.fc_2.weights[i] == 0,
        m.fc_2.biases[0] + m.fc_0.biases[30] - m.fc_0.biases[31] == 16384 * k,
    ensures
        network::forward(m, t) == 9600 * k,
{
    lemma_steps(m, t);
    lemma_dot_one(m.fc_2.weights, 0, seen(m, t), 128, 128);
    lemma_dot_one(m.fc_0.weights, 30720, t, 1024, 1024);
    lemma_dot_one(m.fc_0.weights, 31744, t, 1024, 1024);
}

/// `r` is `x` times 9600 / 16384, rounded towards zero.
pub open spec fn in_output(r: int, x: int) -> bool {
    &&& x >= 0 ==> 0 <= 9600 * x - 16384 * r < 16384
    &&& x <= 0 ==> -16384 < 9600 * x - 16384 * r <= 0
}

/// One unit of the first layer, with a bias of 2048 for each `y`, reaches the output by way of
/// its two places in the last layer: as `2 * y * y`, its square, and as `16 * y`, itself.
pub proof fn law_first_layer_unit(m: StackModel, t: Seq<u8>, i: int, y: int)
    requires
        shaped(m),
        roomy(m),
        0 <= i < 30,
        forall|k: int| 0 <= k < 32768 ==> #[trigger] m.fc_0.weights[k] == 0,
        m.fc_2.biases[0] == 0,
        m.fc_0.biases[30] == 0,
        m.fc_0.biases[31] == 0,
        0 <= y <= 7,
        m.fc_0.biases[i] == 2048 * y,
    ensures
        (forall|k: int| 0 <= k < 128 && k != i ==> #[trigger] m.fc_2.weights[k] == 0)
            ==> in_output(network::forward(m, t), m.fc_2.weights[i] * (2 * y * y)),
        (forall|k: int| 0 <= k < 128 && k != 32 + i ==> #[trigger] m.fc_2.weights[k] == 0)
            ==> in_output(network::forward(m, t), m.fc_2.weights[32 + i] * (16 * y)),
{
    lemma_steps(m, t);
    lemma_dot_one(m.fc_0.weights, 30720, t, 1024, 1024);
    lemma_dot_one(m.fc_0.weights, 31744, t, 1024, 1024);
    let x0 = network::layer(m.fc_0, 1024, 32, t);
    lemma_bias_out(m.fc_0, 1024, t, i);
    let x = x0[i];
    assert(x == 2048 * y);
    lemma_round(y);
    law_clipped(x);
    law_squared(x);
    assert(seen(m, t)[i] == network::sqr_clipped(x, 7));
    assert(seen(m, t)[32 + i] == network::clipped(x, 7));
    assert(seen(m, t)[i] == 2 * y * y);
    if forall|k: int| 0 <= k < 128 && k != i ==> #[trigger] m.fc_2.weights[k] == 0 {
        lemma_dot_one(m.fc_2.weights, 0, seen(m, t), 128, i);
    }
    if forall|k: int| 0 <= k < 128 && k != 32 + i ==> #[trigger] m.fc_2.weights[k] == 0 {
        lemma_dot_one(m.fc_2.weights, 0, seen(m, t), 128, 32 + i);
    }
}

/// One unit of the second layer with a bias of `v` reaches the output by way of
/// its two places in the last layer: its square in steps of 2^19 and itself in
/// steps of 64.
pub proof fn law_second_layer_unit(m: StackModel, t: Seq<u8>, i: int, y: int)
    requires
        shaped(m),
        roomy(m),
        0 <= i < 32,
        forall|k: int| 0 <= k < 32768 ==> #[trigger] m.fc_0.weights[k] == 0,
        forall|k: int| 0 <= k < 2048 ==> #[trigger] m.fc_1.weights[k] == 0,
        m.fc_2.biases[0] == 0,
        m.fc_0.biases[30] == 0,
        m.fc_0.biases[31] == 0,
        0 <= y <= 7,
        m.fc_1.biases[i] == 1024 * y,
    ensures
        (forall|k: int| 0 <= k < 128 && k != 64 + i ==> #[trigger] m.fc_2.weights[k] == 0)
            ==> in_output(network::forward(m, t), m.fc_2.weights[64 + i] * (2 * y * y)),
        (forall|k: int| 0 <= k < 128 && k != 96 + i ==> #[trigger] m.fc_2.weights[k] == 0)
            ==> in_output(network::forward(m, t), m.fc_2.weights[96 + i] * (16 * y)),
{
    lemma_steps(m, t);
    lemma_dot_one(m.fc_0.weights, 30720, t, 1024, 1024);
    lemma_dot_one(m.fc_0.weights, 31744, t, 1024, 1024);
    let a0 = network::activations(network::layer(m.fc_0, 1024, 32, t), 7);
    let x1 = network::layer(m.fc_1, 64, 32, a0);
    lemma_bias_out(m.fc_1, 64, a0, i);
    let x = x1[i];
    assert(x == 1024 * y);
    lemma_round(y);
    law_clipped(x);
    law_squared(x);
    assert(seen(m, t)[64 + i] == network::sqr_clipped(x, 6));
    assert(seen(m, t)[96 + i] == network::clipped(x, 6));
    if forall|k: int| 0 <= k < 128 && k != 64 + i ==> #[trigger] m.fc_2.weights[k] == 0 {
        lemma_dot_one(m.fc_2.weights, 0, seen(m, t), 128, 64 + i);
    }
    if forall|k: int| 0 <= k < 128 && k != 96 + i ==> #[trigger] m.fc_2.weights[k] == 0 {
        lemma_dot_one(m.fc_2.weights, 0, seen(m, t), 128, 96 + i);
    }
}

/// A layer without weights puts out its biases.
proof fn lemma_bias_out(m: AffineModel, n: int, input: Seq<u8>, j: int)
    requires
        n == 1024 || n == 64,
        0 <= j < 32,
        m.weights.len() == 32 * n,
        forall|k: int| 0 <= k < m.weights.len() ==> #[trigger] m.weights[k] == 0,
    ensures
        network::layer_out(m, n, input, j) == m.biases[j],
{
    assert(network::padded(n) == n);
    assert(0 <= j * n && j * n + n <= 32 * n) by (nonlinear_arith)
        requires
            0 <= j < 32,
            0 <= n,
    ;
    lemma_dot_one(m.weights, j * n, input, n, n);
}

proof fn lemma_round(y: int)
    requires
        0 <= y <= 7,
    ensures
        (2048 * y) * (2048 * y) == 2097152 * (2 * y * y),
        (1024 * y) * (1024 * y) == 524288 * (2 * y * y),
        0 <= 2 * y * y <= 98,
{
    let z = y * y;
    assert((2048 * y) * (2048 * y) == 4194304 * z && (1024 * y) * (1024 * y) == 1048576 * z && 2 * y
        * y == 2 * z && 0 <= z <= 49) by (nonlinear_arith)
        requires
            0 <= y <= 7,
            z == y * y,
    ;
}

/// The network looks at the transformed features through the first layer alone: a
/// head whose first layer has no weights for them does not depend on them.
pub proof fn law_blind_head(m: StackModel, t: Seq<u8>, u: Seq<u8>)
    requires
        shaped(m),
        t.len() == 1024,
        u.len() == 1024,
        forall|j: int, i: int|
            0 <= j < 32 && 0 <= i < 1024 && t[i] != u[i] ==> #[trigger] m.fc_0.weights[j * 1024 + i]
                == 0,
    ensures
        network::forward(m, t) == network::forward(m, u),
{
    assert(network::padded(1024) == 1024);
    let x = network::layer(m.fc_0, 1024, 32, t);
    let y = network::layer(m.fc_0, 1024, 32, u);
    assert forall|j: int| 0 <= j < 32 implies x[j] == y[j] by {
        lemma_same_dot(m.fc_0.weights, j, t, u, 1024);
    }
    assert(x =~= y);
}

proof fn lemma_same_dot(weights: Seq<i8>, j: int, t: Seq<u8>, u: Seq<u8>, n: int)
    requires
        0 <= n <= 1024,
        0 <= j < 32,
        forall|j: int, i: int|
            0 <= j < 32 && 0 <= i < 1024 && t[i] != u[i] ==> #[trigger] weights[j * 1024 + i] == 0,
    ensures
        network::dot(weights, j * 1024, t, n) == network::dot(weights, j * 1024, u, n),
    decreases n,
{
    if n > 0 {
        lemma_same_dot(weights, j, t, u, n - 1);
        let a = t[n - 1] as int;
        let b = u[n - 1] as int;
        assert(0 * a == 0 && 0 * b == 0) by (nonlinear_arith);
        if t[n - 1] != u[n - 1] {
            assert(weights[j * 1024 + (n - 1)] == 0);
        }
    }
}

// --- the transform --------------------------------------------------------------------------------

/// A transformed feature is the product of two sums, each taken between nothing and 255, in
/// steps of 512.
pub proof fn law_transformed(acc: Seq<i16>, j: int)
    requires
        0 <= j < 512,
        acc.len() == 1024,
    ensures
        ({
            let t = network::transformed(acc)[j];
            let x = acc[j] as int;
            let y = acc[j + 512] as int;
            &&& x <= 0 || y <= 0 ==> t == 0
            &&& 0 <= x <= 255 && 0 <= y <= 255 ==> 512 * t <= x * y < 512 * (t + 1)
            &&& x > 255 ==> t == network::transformed(acc.update(j, 255))[j]
            &&& y > 255 ==> t == network::transformed(acc.update(j + 512, 255))[j]
        }),
        network::transformed(acc).len() == 512,
{
    let x = network::clip(acc[j]);
    let y = network::clip(acc[j + 512]);
    assert(0 <= x * y <= 65025) by (nonlinear_arith)
        requires
            0 <= x <= 255,
            0 <= y <= 255,
    ;
    assert(x == 0 || y == 0 ==> x * y == 0) by (nonlinear_arith);
}

// --- the outputs ----------------------------------------------------------------------------------

/// The piece-square output is the lead of the own sum over the other, in steps of 32: the more
/// the own sum, the more the output.
pub proof fn law_piece_square_output(
    heads: Seq<LayerStack>,
    own: Seq<i16>,
    other: Seq<i16>,
    a: i32,
    more: i32,
    b: i32,
    bucket: int,
    k: int,
)
    requires
        a <= more,
        -0x8000_0000 < a - b,
        more - b <= 0x7fff_ffff,
    ensures
        network::network_output(heads, own, other, a, b, bucket).psqt <= network::network_output(
            heads,
            own,
            other,
            more,
            b,
            bucket,
        ).psqt,
        a - b == 32 * k ==> network::network_output(heads, own, other, a, b, bucket).psqt == k,
{
    let d = a - b;
    let e = more - b;
    assert(arith::wrap32(d) == d && arith::wrap32(e) == e);
    assert(arith::trunc_div(d, 2) <= arith::trunc_div(e, 2));
}

/// The positional output is that of the head for the number of pieces alone, in steps of 16.
pub proof fn law_positional_output(
    heads: Seq<LayerStack>,
    own: Seq<i16>,
    other: Seq<i16>,
    a: i32,
    b: i32,
    bucket: int,
)
    requires
        0 <= bucket < 8,
        heads.len() == 8,
        -1258291200 <= network::forward(
            heads[bucket].model(),
            network::transformed(own) + network::transformed(other),
        ) <= 1258291200,
    ensures
        ({
            let r = network::network_output(heads, own, other, a, b, bucket).positional;
            let x = network::forward(
                heads[bucket].model(),
                network::transformed(own) + network::transformed(other),
            );
            &&& x >= 0 ==> 0 <= x - 16 * r < 16
            &&& x <= 0 ==> -16 < x - 16 * r <= 0
        }),
{
}

/// The features of the side to move come first: a head whose first layer has no weights for
/// the second half of its inputs does not see the other side's sums, and one without weights
/// for the first half does not see the own ones.
pub proof fn law_own_features_first(
    heads: Seq<LayerStack>,
    own: Seq<i16>,
    other: Seq<i16>,
    own2: Seq<i16>,
    other2: Seq<i16>,
    a: i32,
    b: i32,
    bucket: int,
)
    requires
        0 <= bucket < 8,
        shaped(heads[bucket].model()),
    ensures
        (forall|j: int, i: int|
            0 <= j < 32 && 512 <= i < 1024 ==> #[trigger] heads[bucket].model().fc_0.weights[j * 1024
                + i] == 0) ==> network::network_output(heads, own, other, a, b, bucket)
            == network::network_output(heads, own, other2, a, b, bucket),
        (forall|j: int, i: int|
            0 <= j < 32 && 0 <= i < 512 ==> #[trigger] heads[bucket].model().fc_0.weights[j * 1024
                + i] == 0) ==> network::network_output(heads, own, other, a, b, bucket)
            == network::network_output(heads, own2, other, a, b, bucket),
{
    let m = heads[bucket].model();
    let t = network::transformed(own) + network::transformed(other);
    if forall|j: int, i: int|
        0 <= j < 32 && 512 <= i < 1024 ==> #[trigger] m.fc_0.weights[j * 1024 + i] == 0 {
        law_blind_head(m, t, network::transformed(own) + network::transformed(other2));
    }
    if forall|j: int, i: int|
        0 <= j < 32 && 0 <= i < 512 ==> #[trigger] m.fc_0.weights[j * 1024 + i] == 0 {
        law_blind_head(m, t, network::transformed(own2) + network::transformed(other));
    }
}

/// The outputs are for the side to move: its sums are the own ones.
pub proof fn law_outputs_are_for_the_mover(net: &Network, acc: &Accumulator, bucket: int)
    requires
        0 <= bucket < 8,
    ensures
        accumulator::outputs(net, acc, Color::White, bucket) == network::network_output(
            net.heads(),
            acc.accumulation@[0]@,
            acc.accumulation@[1]@,
            acc.psqt@[0]@[bucket],
            acc.psqt@[1]@[bucket],
            bucket,
        ),
        accumulator::outputs(net, acc, Color::Black, bucket) == network::network_output(
            net.heads(),
            acc.accumulation@[1]@,
            acc.accumulation@[0]@,
            acc.psqt@[1]@[bucket],
            acc.psqt@[0]@[bucket],
            bucket,
        ),
{
}

// --- the sums -------------------------------------------------------------------------------------

/// Weights of `n` features that differ by `d` at one of them.
pub open spec fn apart_at(
    f: spec_fn(int) -> int,
    g: spec_fn(int) -> int,
    x: u16,
    d: int,
    n: int,
) -> bool {
    forall|i: int| 0 <= i < n ==> #[trigger] g(i) == f(i) + (if i == x {
        d
    } else {
        0
    })
}

/// Raising one weight of a piece feature by `d` raises the sum by `d` for every time that the
/// feature is there; raising one of an attack or a pair does so too, and so does raising a
/// bias once.
pub proof fn law_sums_add_weights(
    ft: &FeatureTransformer,
    gt: &FeatureTransformer,
    a: Accumulator,
    b: Accumulator,
    perspective: Color,
    sq: Seq<u8>,
    j: int,
    x: u16,
    d: int,
    y: u16,
    e: int,
)
    requires
        0 <= j < 1024,
        board::valid_squares(sq),
        accumulator::countable(sq, perspective),
        0 <= board::king_of(sq, perspective.index()),
        accumulator::refreshed(ft, a, perspective, sq),
        accumulator::refreshed(gt, b, perspective, sq),
        apart_at(|i: int| ft.psq(i, j), |i: int| gt.psq(i, j), x, d, 22528),
        apart_at(|i: int| ft.other(i, j), |i: int| gt.other(i, j), y, e, 64368),
    ensures
        ({
            let p = perspective.index();
            (b.accumulation@[p]@[j] - a.accumulation@[p]@[j] - (gt.bias(j) - ft.bias(j)) - sums::total(
                accumulator::psq_active(sq, perspective),
                sums::is(x),
            ) * d - sums::total(accumulator::other_active(sq, perspective), sums::is(y)) * e) % 65536
                == 0
        }),
{
    let p = perspective.index();
    let l = accumulator::psq_active(sq, perspective);
    let m = accumulator::other_active(sq, perspective);
    assert forall|i: int| 0 <= i < 22528 implies #[trigger] gt.psq(i, j) == ft.psq(i, j) + (if i == x {
        d
    } else {
        0
    }) by {
        let g = |i: int| gt.psq(i, j);
        assert(g(i) == gt.psq(i, j));
    }
    assert forall|i: int| 0 <= i < 64368 implies #[trigger] gt.other(i, j) == ft.other(i, j) + (if i == y {
        e
    } else {
        0
    }) by {
        let g = |i: int| gt.other(i, j);
        assert(g(i) == gt.other(i, j));
    }
    accumulator::lemma_psq_below(sq, perspective);
    accumulator::lemma_other_below(sq, perspective);
    lemma_psq(ft, gt, l, j, x, d);
    lemma_other(ft, gt, m, j, y, e);
    let u = ft.bias(j) + accumulator::psq_sum(ft, l, j) + accumulator::other_sum(ft, m, j);
    let v = gt.bias(j) + accumulator::psq_sum(gt, l, j) + accumulator::other_sum(gt, m, j);
    assert(a.accumulation@[p]@[j] == arith::wrap16(u));
    assert(b.accumulation@[p]@[j] == arith::wrap16(v));
    lemma_wrapped(u, v, 65536);
}

/// The same of the piece-square sums.
pub proof fn law_psqt_sums_add_shares(
    ft: &FeatureTransformer,
    gt: &FeatureTransformer,
    a: Accumulator,
    b: Accumulator,
    perspective: Color,
    sq: Seq<u8>,
    k: int,
    x: u16,
    d: int,
    y: u16,
    e: int,
)
    requires
        0 <= k < 8,
        board::valid_squares(sq),
        accumulator::countable(sq, perspective),
        0 <= board::king_of(sq, perspective.index()),
        accumulator::refreshed(ft, a, perspective, sq),
        accumulator::refreshed(gt, b, perspective, sq),
        apart_at(|i: int| ft.psqt(i, k), |i: int| gt.psqt(i, k), x, d, 22528),
        apart_at(|i: int| ft.other_share(i, k), |i: int| gt.other_share(i, k), y, e, 64368),
    ensures
        ({
            let p = perspective.index();
            (b.psqt@[p]@[k] - a.psqt@[p]@[k] - sums::total(
                accumulator::psq_active(sq, perspective),
                sums::is(x),
            ) * d - sums::total(accumulator::other_active(sq, perspective), sums::is(y)) * e)
                % 4294967296 == 0
        }),
{
    let p = perspective.index();
    let l = accumulator::psq_active(sq, perspective);
    let m = accumulator::other_active(sq, perspective);
    assert forall|i: int| 0 <= i < 22528 implies #[trigger] gt.psqt(i, k) == ft.psqt(i, k) + (if i == x {
        d
    } else {
        0
    }) by {
        let g = |i: int| gt.psqt(i, k);
        assert(g(i) == gt.psqt(i, k));
    }
    assert forall|i: int| 0 <= i < 64368 implies #[trigger] gt.other_share(i, k) == ft.other_share(i, k) + (if i == y {
        e
    } else {
        0
    }) by {
        let g = |i: int| gt.other_share(i, k);
        assert(g(i) == gt.other_share(i, k));
    }
    accumulator::lemma_psq_below(sq, perspective);
    accumulator::lemma_other_below(sq, perspective);
    lemma_psqt(ft, gt, l, k, x, d);
    lemma_share(ft, gt, m, k, y, e);
    let u = accumulator::psqt_sum(ft, l, k) + accumulator::share_sum(ft, m, k);
    let v = accumulator::psqt_sum(gt, l, k) + accumulator::share_sum(gt, m, k);
    assert(a.psqt@[p]@[k] == arith::wrap32(u));
    assert(b.psqt@[p]@[k] == arith::wrap32(v));
    lemma_wrapped(u, v, 4294967296);
}

proof fn lemma_wrapped(u: int, v: int, n: int)
    requires
        n == 65536 || n == 4294967296,
    ensures
        n == 65536 ==> (arith::wrap16(v) - arith::wrap16(u) - (v - u)) % 65536 == 0,
        n == 4294967296 ==> (arith::wrap32(v) - arith::wrap32(u) - (v - u)) % 4294967296 == 0,
{
}

proof fn lemma_psq(
    ft: &FeatureTransformer,
    gt: &FeatureTransformer,
    l: Seq<u16>,
    j: int,
    x: u16,
    d: int,
)
    requires
        accumulator::below(l, 22528),
        forall|i: int| 0 <= i < 22528 ==> #[trigger] gt.psq(i, j) == ft.psq(i, j) + (if i == x {
            d
        } else {
            0
        }),
    ensures
        accumulator::psq_sum(gt, l, j) == accumulator::psq_sum(ft, l, j) + sums::total(l, sums::is(x)) * d,
    decreases l.len(),
{
    if l.len() > 0 {
        assert(l[l.len() - 1] == l.last());
        lemma_psq(ft, gt, l.drop_last(), j, x, d);
        let n = sums::total(l.drop_last(), sums::is(x));
        assert((n + 1) * d == n * d + d) by (nonlinear_arith);
    } else {
        assert(0 * d == 0) by (nonlinear_arith);
    }
}

proof fn lemma_other(
    ft: &FeatureTransformer,
    gt: &FeatureTransformer,
    l: Seq<u16>,
    j: int,
    x: u16,
    d: int,
)
    requires
        accumulator::below(l, 64368),
        forall|i: int| 0 <= i < 64368 ==> #[trigger] gt.other(i, j) == ft.other(i, j) + (if i == x {
            d
        } else {
            0
        }),
    ensures
        accumulator::other_sum(gt, l, j) == accumulator::other_sum(ft, l, j) + sums::total(l, sums::is(x)) * d,
    decreases l.len(),
{
    if l.len() > 0 {
        assert(l[l.len() - 1] == l.last());
        lemma_other(ft, gt, l.drop_last(), j, x, d);
        let n = sums::total(l.drop_last(), sums::is(x));
        assert((n + 1) * d == n * d + d) by (nonlinear_arith);
    } else {
        assert(0 * d == 0) by (nonlinear_arith);
    }
}

proof fn lemma_psqt(
    ft: &FeatureTransformer,
    gt: &FeatureTransformer,
    l: Seq<u16>,
    j: int,
    x: u16,
    d: int,
)
    requires
        accumulator::below(l, 22528),
        forall|i: int| 0 <= i < 22528 ==> #[trigger] gt.psqt(i, j) == ft.psqt(i, j) + (if i == x {
            d
        } else {
            0
        }),
    ensures
        accumulator::psqt_sum(gt, l, j) == accumulator::psqt_sum(ft, l, j) + sums::total(l, sums::is(x)) * d,
    decreases l.len(),
{
    if l.len() > 0 {
        assert(l[l.len() - 1] == l.last());
        lemma_psqt(ft, gt, l.drop_last(), j, x, d);
        let n = sums::total(l.drop_last(), sums::is(x));
        assert((n + 1) * d == n * d + d) by (nonlinear_arith);
    } else {
        assert(0 * d == 0) by (nonlinear_arith);
    }
}

proof fn lemma_share(
    ft: &FeatureTransformer,
    gt: &FeatureTransformer,
    l: Seq<u16>,
    j: int,
    x: u16,
    d: int,
)
    requires
        accumulator::below(l, 64368),
        forall|i: int| 0 <= i < 64368 ==> #[trigger] gt.other_share(i, j) == ft.other_share(i, j) + (if i == x {
            d
        } else {
            0
        }),
    ensures
        accumulator::share_sum(gt, l, j) == accumulator::share_sum(ft, l, j) + sums::total(l, sums::is(x)) * d,
    decreases l.len(),
{
    if l.len() > 0 {
        assert(l[l.len() - 1] == l.last());
        lemma_share(ft, gt, l.drop_last(), j, x, d);
        let n = sums::total(l.drop_last(), sums::is(x));
        assert((n + 1) * d == n * d + d) by (nonlinear_arith);
    } else {
        assert(0 * d == 0) by (nonlinear_arith);
    }
}


} // verus!
