//! The network: the weights of the feature transformer, the eight layer stacks
//! and the pass that turns accumulated features into a score.
//!
//! All arithmetic is on integers. Sums of weights are taken modulo 2^32, as the
//! machine takes them; weights of a usable network never come near that.
use vstd::prelude::*;
use crate::arith;
use crate::nnue::format::{FormatError, Header, LeBytes, Reader};

verus! {

/// Width of the transformed features.
pub const L1: usize = 1024;

/// Piece-count buckets of the piece-square sums.
pub const PSQT_BUCKETS: usize = 8;

/// Number of layer stacks.
pub const LAYER_STACKS: usize = 8;

/// What turns the output into centipawns.
pub const OUTPUT_SCALE: i32 = 16;

/// Binary digits after the point of every small weight.
pub const WEIGHT_SCALE_BITS: i32 = 6;

/// Where the features are clipped.
pub const FT_MAX_VAL: i32 = 255;

/// The activation that stands for one in the hidden layers.
pub const HIDDEN_ONE_VAL: i32 = 128;

/// Features of pieces on squares.
pub const PSQ_DIMENSIONS: usize = 22528;

/// Features of attacks.
pub const THREAT_DIMENSIONS: usize = 59808;

/// Features of pawn pairs.
pub const PAIR_DIMENSIONS: usize = 4560;

/// Features of attacks and of pawn pairs.
pub const OTHER_DIMENSIONS: usize = 64368;

/// Number of input features.
pub const INPUT_DIMENSIONS: usize = 86896;

// --- hashes of the shape ---------------------------------------------------------------

/// One step of combining hashes: rotate to the left, then mix in.
pub open spec fn combine_step(hash: u32, part: u32) -> u32 {
    ((hash << 1) | (hash >> 31)) ^ part
}

/// Three hashes combined.
pub open spec fn combined(a: u32, b: u32, c: u32) -> u32 {
    combine_step(combine_step(combine_step(0, a), b), c)
}

/// Three hashes combined.
pub fn combine_hash(a: u32, b: u32, c: u32) -> (r: u32)
    ensures
        r == combined(a, b, c),
{
    let x: u32 = ((0u32 << 1) | (0u32 >> 31)) ^ a;
    let y: u32 = ((x << 1) | (x >> 31)) ^ b;
    ((y << 1) | (y >> 31)) ^ c
}

/// The hash of a fully connected layer after the layer with the hash `prev`.
pub open spec fn affine_hashed(prev: u32, outputs: u32) -> u32 {
    (((0xCC03_DAE4u32 + outputs) % 0x1_0000_0000) as u32) ^ (prev >> 1) ^ (prev << 31)
}

/// The hash of a fully connected layer after the layer with the hash `prev`.
pub fn affine_hash(prev: u32, outputs: u32) -> (r: u32)
    ensures
        r == affine_hashed(prev, outputs),
{
    let h: u32 = 0xCC03_DAE4u32.wrapping_add(outputs);
    h ^ (prev >> 1) ^ (prev << 31)
}

/// The hash of a clipping layer after the layer with the hash `prev`.
pub open spec fn clipped_hashed(prev: u32) -> u32 {
    ((0x538D_24C7u32 + prev) % 0x1_0000_0000) as u32
}

/// The hash of a clipping layer after the layer with the hash `prev`.
pub fn clipped_hash(prev: u32) -> (r: u32)
    ensures
        r == clipped_hashed(prev),
{
    0x538D_24C7u32.wrapping_add(prev)
}

/// The hash of the three feature sets and the width of the transform.
pub const FEATURE_TRANSFORMER_HASH: u32 = 0xCB68_5313;

/// The hash of the shape of a layer stack.
pub const LAYER_STACK_HASH: u32 = 0x6333_7116;

/// The hash of the whole network's shape.
pub const NETWORK_HASH: u32 = 0xA85B_2205;

/// The hashes are those of the shape that this module computes with.
pub proof fn law_structural_hashes()
    ensures
        FEATURE_TRANSFORMER_HASH == combined(0x2e6b_9d04, 0x86f2_b1dd, 0x7f23_4cb8) ^ 2048u32,
        LAYER_STACK_HASH == affine_hashed(
            clipped_hashed(affine_hashed(clipped_hashed(affine_hashed(0xEC42_E90Du32 ^ 2048u32, 32)), 32)),
            1,
        ),
        NETWORK_HASH == FEATURE_TRANSFORMER_HASH ^ LAYER_STACK_HASH,
{
    assert(0xCB68_5313u32 == combined(0x2e6b_9d04, 0x86f2_b1dd, 0x7f23_4cb8) ^ 2048u32
        && 0x6333_7116u32 == affine_hashed(
        clipped_hashed(affine_hashed(clipped_hashed(affine_hashed(0xEC42_E90Du32 ^ 2048u32, 32)), 32)),
        1,
    ) && 0xA85B_2205u32 == 0xCB68_5313u32 ^ 0x6333_7116u32) by (bit_vector);
}

// --- reading blocks -----------------------------------------------------------------------

/// Context and reason of an error.
pub type Fault = (Seq<char>, Seq<char>);

/// What reading a section hash leaves to be read.
pub open spec fn hash_stage(b: Seq<u8>, expected: u32, context: Seq<char>) -> Result<
    Seq<u8>,
    Fault,
> {
    if b.len() < 4 {
        Err(("truncated net"@, "truncated net"@))
    } else if crate::nnue::format::le_u32(b) != expected {
        Err((context, "net is incompatible with this engine (section hash mismatch)"@))
    } else {
        Ok(b.skip(4))
    }
}

/// What reading `n` plain integers gives and leaves.
pub open spec fn le_stage<T: LeBytes>(b: Seq<u8>, n: nat, what: Seq<char>) -> Result<
    (Seq<T>, Seq<u8>),
    Fault,
> {
    if b.len() < n * T::width() {
        Err(("truncated net"@, what))
    } else {
        Ok(
            (
                Seq::new(
                    n,
                    |k: int|
                        T::decoded(
                            b.subrange(
                                (k * T::width()) as int,
                                (k * T::width() + T::width()) as int,
                            ),
                        ),
                ),
                b.skip((n * T::width()) as int),
            ),
        )
    }
}

/// What reading `n` compressed integers gives and leaves.
pub open spec fn leb_stage<T: LeBytes>(b: Seq<u8>, n: nat, what: Seq<char>) -> Result<
    (Seq<T>, Seq<u8>),
    Fault,
> {
    let tail = b.skip(21);
    let declared = crate::nnue::format::le_u32(b.skip(17));
    let read = crate::nnue::format::leb_many(crate::nnue::format::leb_payload(tail, declared), 0, n);
    if b.len() < 17 || b.take(17) != crate::nnue::format::leb128_magic() {
        Err((what, "missing COMPRESSED_LEB128 marker (section is not compressed)"@))
    } else if b.len() < 21 {
        Err(("truncated net"@, "truncated net"@))
    } else if read is None {
        if declared <= tail.len() {
            Err((what, "LEB128 payload longer than declared"@))
        } else {
            Err((what, "LEB128 payload ended too early"@))
        }
    } else if read.unwrap().1 != declared {
        Err((what, "LEB128 payload shorter than declared"@))
    } else {
        Ok(
            (
                Seq::new(n, |k: int| T::decoded(crate::nnue::format::le_bytes(read.unwrap().0[k]))),
                tail.skip(declared as int),
            ),
        )
    }
}

/// `n` zeros.
fn zeros<T: LeBytes>(n: usize) -> (v: Vec<T>)
    ensures
        v@.len() == n,
{
    let w: usize = T::size();
    let raw: [u8; 4] = [0, 0, 0, 0];
    let zero: T = T::from_le_bytes(&raw);
    let mut v: Vec<T> = Vec::new();
    let mut i: usize = 0;
    while i < n
        invariant
            i <= n,
            v@.len() == i,
        decreases n - i,
    {
        v.push(zero);
        i = i + 1;
    }
    v
}

/// Reads `n` plain integers.
fn read_le_vec<T: LeBytes>(reader: &mut Reader, n: usize, what: &'static str) -> (r: Result<
    Vec<T>,
    FormatError,
>)
    ensures
        match le_stage::<T>(old(reader).remaining(), n as nat, what@) {
            Ok((v, rest)) => r matches Ok(w) && w@ == v && final(reader).remaining() == rest,
            Err(f) => crate::nnue::format::fails(r, f.0, f.1),
        },
{
    let mut v: Vec<T> = zeros(n);
    let ghost b = reader.remaining();
    match reader.read_le_array(v.as_mut_slice(), what) {
        Ok(_) => {
            assert(v@ =~= le_stage::<T>(b, n as nat, what@)->Ok_0.0);
            Ok(v)
        },
        Err(e) => Err(e),
    }
}

/// Reads `n` compressed integers.
fn read_leb_vec<T: LeBytes>(reader: &mut Reader, n: usize, what: &'static str) -> (r: Result<
    Vec<T>,
    FormatError,
>)
    ensures
        match leb_stage::<T>(old(reader).remaining(), n as nat, what@) {
            Ok((v, rest)) => r matches Ok(w) && w@ == v && final(reader).remaining() == rest,
            Err(f) => crate::nnue::format::fails(r, f.0, f.1),
        },
{
    let mut v: Vec<T> = zeros(n);
    let ghost b = reader.remaining();
    match reader.read_leb128(v.as_mut_slice(), what) {
        Ok(_) => {
            assert(v@ =~= leb_stage::<T>(b, n as nat, what@)->Ok_0.0);
            Ok(v)
        },
        Err(e) => Err(e),
    }
}

// --- the feature transformer -----------------------------------------------------------------

/// The weights of the input features: a row of 1024 weights for each feature,
/// and a row of 8 for its share in the piece-square sums. The rows of attacks
/// come before those of pawn pairs.
pub struct FeatureTransformer {
    biases: Vec<i16>,
    psq_weights: Vec<i16>,
    psqt_weights: Vec<i32>,
    other_weights: Vec<i8>,
    other_psqt: Vec<i32>,
}

/// The blocks of a feature transformer.
pub struct FtModel {
    pub biases: Seq<i16>,
    pub psq: Seq<i16>,
    pub psqt: Seq<i32>,
    pub other: Seq<i8>,
    pub other_psqt: Seq<i32>,
}

/// What reading a feature transformer gives and leaves.
pub open spec fn ft_stage(b: Seq<u8>) -> Result<(FtModel, Seq<u8>), Fault> {
    match hash_stage(b, FEATURE_TRANSFORMER_HASH, "feature transformer"@) {
        Err(f) => Err(f),
        Ok(b0) => match leb_stage::<i16>(b0, 1024, "feature transformer biases"@) {
            Err(f) => Err(f),
            Ok((biases, b1)) => match le_stage::<i8>(b1, 61243392, "threat weights"@) {
                Err(f) => Err(f),
                Ok((threat, b2)) => match leb_stage::<i32>(b2, 478464, "threat psqt weights"@) {
                    Err(f) => Err(f),
                    Ok((threat_psqt, b3)) => match le_stage::<i8>(
                        b3,
                        4669440,
                        "pawn pair weights"@,
                    ) {
                        Err(f) => Err(f),
                        Ok((pair, b4)) => match leb_stage::<i32>(
                            b4,
                            36480,
                            "pawn pair psqt weights"@,
                        ) {
                            Err(f) => Err(f),
                            Ok((pair_psqt, b5)) => match leb_stage::<i16>(
                                b5,
                                23068672,
                                "psq weights"@,
                            ) {
                                Err(f) => Err(f),
                                Ok((psq, b6)) => match leb_stage::<i32>(
                                    b6,
                                    180224,
                                    "psqt weights"@,
                                ) {
                                    Err(f) => Err(f),
                                    Ok((psqt, b7)) => Ok(
                                        (
                                            FtModel {
                                                biases,
                                                psq,
                                                psqt,
                                                other: threat + pair,
                                                other_psqt: threat_psqt + pair_psqt,
                                            },
                                            b7,
                                        ),
                                    ),
                                },
                            },
                        },
                    },
                },
            },
        },
    }
}

impl FeatureTransformer {
    /// The blocks of weights.
    pub closed spec fn model(&self) -> FtModel {
        FtModel {
            biases: self.biases@,
            psq: self.psq_weights@,
            psqt: self.psqt_weights@,
            other: self.other_weights@,
            other_psqt: self.other_psqt@,
        }
    }

    /// Every feature has its rows.
    pub open spec fn wf(&self) -> bool {
        &&& self.model().biases.len() == 1024
        &&& self.model().psq.len() == 23068672
        &&& self.model().psqt.len() == 180224
        &&& self.model().other.len() == 65912832
        &&& self.model().other_psqt.len() == 514944
    }

    pub open spec fn bias(&self, j: int) -> int {
        self.model().biases[j] as int
    }

    /// Weight `j` of the piece feature `idx`.
    pub open spec fn psq(&self, idx: int, j: int) -> int {
        self.model().psq[idx * 1024 + j] as int
    }

    /// Weight `j` of the attack or pair feature `idx`.
    pub open spec fn other(&self, idx: int, j: int) -> int {
        self.model().other[idx * 1024 + j] as int
    }

    /// Share of the piece feature `idx` in bucket `k`.
    pub open spec fn psqt(&self, idx: int, k: int) -> int {
        self.model().psqt[idx * 8 + k] as int
    }

    /// Share of the attack or pair feature `idx` in bucket `k`.
    pub open spec fn other_share(&self, idx: int, k: int) -> int {
        self.model().other_psqt[idx * 8 + k] as int
    }

    /// A feature transformer of given blocks, where they have the right sizes.
    pub fn from_blocks(
        biases: Vec<i16>,
        psq_weights: Vec<i16>,
        psqt_weights: Vec<i32>,
        other_weights: Vec<i8>,
        other_psqt: Vec<i32>,
    ) -> (r: Option<FeatureTransformer>)
        ensures
            r is Some <==> biases@.len() == 1024 && psq_weights@.len() == 23068672
                && psqt_weights@.len() == 180224 && other_weights@.len() == 65912832
                && other_psqt@.len() == 514944,
            r matches Some(ft) ==> ft.wf() && ft.model() == (FtModel {
                biases: biases@,
                psq: psq_weights@,
                psqt: psqt_weights@,
                other: other_weights@,
                other_psqt: other_psqt@,
            }),
    {
        if biases.len() == 1024 && psq_weights.len() == 23068672 && psqt_weights.len() == 180224
            && other_weights.len() == 65912832 && other_psqt.len() == 514944 {
            Some(
                FeatureTransformer { biases, psq_weights, psqt_weights, other_weights, other_psqt },
            )
        } else {
            None
        }
    }

    /// The biases of the transform.
    pub fn bias_row(&self) -> (r: &[i16])
        requires
            self.wf(),
        ensures
            r@.len() == 1024,
            forall|j: int| 0 <= j < 1024 ==> #[trigger] r@[j] == self.bias(j),
    {
        self.biases.as_slice()
    }

    /// The weights of one piece feature.
    pub fn weight_row(&self, idx: usize) -> (r: &[i16])
        requires
            self.wf(),
            idx < PSQ_DIMENSIONS,
        ensures
            r@.len() == 1024,
            forall|j: int| 0 <= j < 1024 ==> #[trigger] r@[j] == self.psq(idx as int, j),
    {
        let all: &[i16] = self.psq_weights.as_slice();
        &all[idx * L1..(idx + 1) * L1]
    }

    /// The weights of one attack or pair feature.
    pub fn other_weight_row(&self, idx: usize) -> (r: &[i8])
        requires
            self.wf(),
            idx < OTHER_DIMENSIONS,
        ensures
            r@.len() == 1024,
            forall|j: int| 0 <= j < 1024 ==> #[trigger] r@[j] == self.other(idx as int, j),
    {
        let all: &[i8] = self.other_weights.as_slice();
        &all[idx * L1..(idx + 1) * L1]
    }

    /// The shares of one piece feature.
    pub fn psqt_weight_row(&self, idx: usize) -> (r: &[i32])
        requires
            self.wf(),
            idx < PSQ_DIMENSIONS,
        ensures
            r@.len() == 8,
            forall|k: int| 0 <= k < 8 ==> #[trigger] r@[k] == self.psqt(idx as int, k),
    {
        let all: &[i32] = self.psqt_weights.as_slice();
        &all[idx * PSQT_BUCKETS..(idx + 1) * PSQT_BUCKETS]
    }

    /// The shares of one attack or pair feature.
    pub fn other_psqt_row(&self, idx: usize) -> (r: &[i32])
        requires
            self.wf(),
            idx < OTHER_DIMENSIONS,
        ensures
            r@.len() == 8,
            forall|k: int| 0 <= k < 8 ==> #[trigger] r@[k] == self.other_share(idx as int, k),
    {
        let all: &[i32] = self.other_psqt.as_slice();
        &all[idx * PSQT_BUCKETS..(idx + 1) * PSQT_BUCKETS]
    }

    /// Reads the section of the feature transformer.
    fn read(reader: &mut Reader) -> (r: Result<Self, FormatError>)
        ensures
            match ft_stage(old(reader).remaining()) {
                Ok((m, rest)) => r matches Ok(ft) && ft.wf() && ft.model() == m
                    && final(reader).remaining() == rest,
                Err(f) => crate::nnue::format::fails(r, f.0, f.1),
            },
    {
        match reader.read_section_hash(FEATURE_TRANSFORMER_HASH, "feature transformer") {
            Ok(_) => {},
            Err(e) => {
                return Err(e);
            },
        }
        let biases: Vec<i16> = match read_leb_vec(reader, 1024, "feature transformer biases") {
            Ok(v) => v,
            Err(e) => {
                return Err(e);
            },
        };
        let mut other_weights: Vec<i8> = match read_le_vec(reader, 61243392, "threat weights") {
            Ok(v) => v,
            Err(e) => {
                return Err(e);
            },
        };
        let mut other_psqt: Vec<i32> = match read_leb_vec(reader, 478464, "threat psqt weights") {
            Ok(v) => v,
            Err(e) => {
                return Err(e);
            },
        };
        let mut pair: Vec<i8> = match read_le_vec(reader, 4669440, "pawn pair weights") {
            Ok(v) => v,
            Err(e) => {
                return Err(e);
            },
        };
        let mut pair_psqt: Vec<i32> = match read_leb_vec(reader, 36480, "pawn pair psqt weights") {
            Ok(v) => v,
            Err(e) => {
                return Err(e);
            },
        };
        let psq_weights: Vec<i16> = match read_leb_vec(reader, 23068672, "psq weights") {
            Ok(v) => v,
            Err(e) => {
                return Err(e);
            },
        };
        let psqt_weights: Vec<i32> = match read_leb_vec(reader, 180224, "psqt weights") {
            Ok(v) => v,
            Err(e) => {
                return Err(e);
            },
        };
        other_weights.append(&mut pair);
        other_psqt.append(&mut pair_psqt);
        Ok(FeatureTransformer { biases, psq_weights, psqt_weights, other_weights, other_psqt })
    }
}

// --- layers --------------------------------------------------------------------------------------

/// A fully connected layer: small weights, wide biases. A row holds the weights
/// of one output, padded to a multiple of 32.
pub struct Affine<const IN: usize, const OUT: usize> {
    biases: Vec<i32>,
    weights: Vec<i8>,
}

/// `n` rounded up to a multiple of 32.
pub open spec fn padded(n: int) -> int {
    (n + 31) / 32 * 32
}

/// Biases and weights of a layer.
pub struct AffineModel {
    pub biases: Seq<i32>,
    pub weights: Seq<i8>,
}

/// The sum of the first `n` weighted inputs of output `j`.
pub open spec fn dot(weights: Seq<i8>, row: int, input: Seq<u8>, n: int) -> int
    decreases n,
{
    if n <= 0 {
        0
    } else {
        dot(weights, row, input, n - 1) + weights[row + n - 1] * input[n - 1]
    }
}

/// Output `j` of a layer with `n` inputs.
pub open spec fn layer_out(m: AffineModel, n: int, input: Seq<u8>, j: int) -> int {
    arith::wrap32(m.biases[j] + dot(m.weights, j * padded(n), input, n))
}

/// What reading a layer gives and leaves.
pub open spec fn affine_stage(b: Seq<u8>, n: int, outputs: nat, what: Seq<char>) -> Result<
    (AffineModel, Seq<u8>),
    Fault,
> {
    match le_stage::<i32>(b, outputs, what) {
        Err(f) => Err(f),
        Ok((biases, b1)) => match le_stage::<i8>(b1, (outputs * padded(n)) as nat, what) {
            Err(f) => Err(f),
            Ok((weights, b2)) => Ok((AffineModel { biases, weights }, b2)),
        },
    }
}

impl<const IN: usize, const OUT: usize> Affine<IN, OUT> {
    pub closed spec fn model(&self) -> AffineModel {
        AffineModel { biases: self.biases@, weights: self.weights@ }
    }

    pub open spec fn wf(&self) -> bool {
        &&& self.model().biases.len() == OUT
        &&& self.model().weights.len() == OUT * padded(IN as int)
    }

    /// The length of a row.
    pub fn pad_in() -> (r: usize)
        requires
            IN <= 65536,
        ensures
            r == padded(IN as int),
    {
        (IN + 31) / 32 * 32
    }

    /// A layer of given biases and weights, where they have the right sizes.
    pub fn from_parts(biases: Vec<i32>, weights: Vec<i8>) -> (r: Option<Self>)
        requires
            IN <= 65536,
            OUT <= 65536,
        ensures
            r is Some <==> biases@.len() == OUT && weights@.len() == OUT * padded(IN as int),
            r matches Some(l) ==> l.wf() && l.model() == (AffineModel {
                biases: biases@,
                weights: weights@,
            }),
    {
        let pad: usize = Self::pad_in();
        proof {
            assert(OUT * pad <= 65536 * 65567) by (nonlinear_arith)
                requires
                    OUT <= 65536,
                    pad <= 65567,
            ;
        }
        if biases.len() == OUT && weights.len() as u64 == OUT as u64 * pad as u64 {
            Some(Affine { biases, weights })
        } else {
            None
        }
    }

    /// Reads biases and weights.
    fn read(reader: &mut Reader, what: &'static str) -> (r: Result<Self, FormatError>)
        requires
            IN <= 1024,
            OUT <= 32,
        ensures
            match affine_stage(old(reader).remaining(), IN as int, OUT as nat, what@) {
                Ok((m, rest)) => r matches Ok(l) && l.wf() && l.model() == m
                    && final(reader).remaining() == rest,
                Err(f) => crate::nnue::format::fails(r, f.0, f.1),
            },
    {
        let pad: usize = Self::pad_in();
        proof {
            assert(0 <= OUT * pad <= 32 * 1055) by (nonlinear_arith)
                requires
                    0 <= OUT <= 32,
                    0 <= pad <= 1055,
            ;
        }
        let biases: Vec<i32> = match read_le_vec(reader, OUT, what) {
            Ok(v) => v,
            Err(e) => {
                return Err(e);
            },
        };
        let weights: Vec<i8> = match read_le_vec(reader, OUT * pad, what) {
            Ok(v) => v,
            Err(e) => {
                return Err(e);
            },
        };
        Ok(Affine { biases, weights })
    }

    /// The outputs for given inputs: bias plus weighted sum of the inputs.
    pub fn propagate(&self, input: &[u8]) -> (output: Vec<i32>)
        requires
            self.wf(),
            IN <= 65536,
            OUT <= 65536,
            input@.len() >= IN,
        ensures
            output@.len() == OUT,
            forall|j: int|
                0 <= j < OUT ==> #[trigger] output@[j] == layer_out(
                    self.model(),
                    IN as int,
                    input@,
                    j,
                ),
    {
        let pad: usize = Self::pad_in();
        let total: usize = self.weights.len();
        let mut output: Vec<i32> = Vec::new();
        let mut j: usize = 0;
        while j < OUT
            invariant
                self.wf(),
                IN <= 65536,
                OUT <= 65536,
                input@.len() >= IN,
                pad == padded(IN as int),
                total == self.weights@.len(),
                j <= OUT,
                output@.len() == j,
                forall|k: int|
                    0 <= k < j ==> #[trigger] output@[k] == layer_out(
                        self.model(),
                        IN as int,
                        input@,
                        k,
                    ),
            decreases OUT - j,
        {
            proof {
                assert(j * pad + pad <= OUT * pad) by (nonlinear_arith)
                    requires
                        j + 1 <= OUT,
                        pad >= 0,
                ;
            }
            let row: usize = j * pad;
            let mut sum: i32 = self.biases[j];
            let mut i: usize = 0;
            proof {
                arith::lemma_wrap32(sum as int, 0);
            }
            while i < IN
                invariant
                    self.wf(),
                    j < OUT,
                    i <= IN,
                    IN <= pad,
                    input@.len() >= IN,
                    row + pad <= total,
                    total == self.weights@.len(),
                    sum == arith::wrap32(
                        self.biases@[j as int] + dot(self.weights@, row as int, input@, i as int),
                    ),
                decreases IN - i,
            {
                let v: u8 = input[i];
                if v != 0 {
                    let w: i32 = self.weights[row + i] as i32;
                    let x: i32 = v as i32;
                    proof {
                        assert(-128 * 255 <= w * x <= 127 * 255) by (nonlinear_arith)
                            requires
                                -128 <= w <= 127,
                                0 <= x <= 255,
                        ;
                        arith::lemma_wrap32(
                            self.biases@[j as int] + dot(
                                self.weights@,
                                row as int,
                                input@,
                                i as int,
                            ),
                            w * x,
                        );
                        arith::lemma_wrap32(sum + w * x, 0);
                    }
                    sum = sum.wrapping_add(w * x);
                } else {
                    assert(self.weights@[row + i] * 0 == 0) by (nonlinear_arith);
                }
                i = i + 1;
            }
            output.push(sum);
            j = j + 1;
        }
        output
    }
}

/// `x` shifted down, within 0 and 127.
pub open spec fn clipped(x: i32, bits: i32) -> u8 {
    arith::within((x >> bits) as int, 0, 127) as u8
}

/// `x` shifted down, within 0 and 127.
pub fn clipped_relu(x: i32, bits: i32) -> (r: u8)
    requires
        0 <= bits < 32,
    ensures
        r == clipped(x, bits),
        r <= 127,
{
    let y: i32 = x >> bits;
    if y < 0 {
        0
    } else if y > 127 {
        127
    } else {
        y as u8
    }
}

/// The square of `x` shifted down, at most 127.
pub open spec fn sqr_clipped(x: i32, bits: i32) -> u8 {
    let y = ((x * x) as u64) >> ((2 * bits + 7) as u64);
    if y < 127 {
        y as u8
    } else {
        127
    }
}

/// The square of `x` shifted down, at most 127.
pub fn sqr_clipped_relu(x: i32, bits: i32) -> (r: u8)
    requires
        0 <= bits <= 28,
    ensures
        r == sqr_clipped(x, bits),
        r <= 127,
{
    let w: i64 = x as i64;
    proof {
        assert(0 <= x * x <= 0x4000_0000_0000_0000) by (nonlinear_arith)
            requires
                -0x8000_0000 <= x <= 0x7fff_ffff,
        ;
    }
    let square: u64 = (w * w) as u64;
    let y: u64 = square >> ((2 * bits + 7) as u64);
    if y < 127 {
        y as u8
    } else {
        127
    }
}

/// One of the eight heads of the network.
pub struct LayerStack {
    fc_0: Affine<1024, 32>,
    fc_1: Affine<64, 32>,
    fc_2: Affine<128, 1>,
}

/// The layers of a head.
pub struct StackModel {
    pub fc_0: AffineModel,
    pub fc_1: AffineModel,
    pub fc_2: AffineModel,
}

/// What reading a head gives and leaves.
pub open spec fn stack_stage(b: Seq<u8>) -> Result<(StackModel, Seq<u8>), Fault> {
    match hash_stage(b, LAYER_STACK_HASH, "layer stack"@) {
        Err(f) => Err(f),
        Ok(b0) => match affine_stage(b0, 1024, 32, "fc_0"@) {
            Err(f) => Err(f),
            Ok((fc_0, b1)) => match affine_stage(b1, 64, 32, "fc_1"@) {
                Err(f) => Err(f),
                Ok((fc_1, b2)) => match affine_stage(b2, 128, 1, "fc_2"@) {
                    Err(f) => Err(f),
                    Ok((fc_2, b3)) => Ok((StackModel { fc_0, fc_1, fc_2 }, b3)),
                },
            },
        },
    }
}

/// The squared and the clipped activations of 32 outputs.
pub open spec fn activations(x: Seq<i32>, bits: i32) -> Seq<u8> {
    Seq::new(32, |i: int| sqr_clipped(x[i], bits)) + Seq::new(32, |i: int| clipped(x[i], bits))
}

/// The outputs of a layer.
pub open spec fn layer(m: AffineModel, n: int, outputs: nat, input: Seq<u8>) -> Seq<i32> {
    Seq::new(outputs, |j: int| layer_out(m, n, input, j) as i32)
}

/// The output of a head: the three layers, the difference of the last two
/// units of the first layer on top, scaled to centipawns times 16.
pub open spec fn forward(m: StackModel, transformed: Seq<u8>) -> int {
    let x0 = layer(m.fc_0, 1024, 32, transformed);
    let a0 = activations(x0, 7);
    let x1 = layer(m.fc_1, 64, 32, a0);
    let a1 = activations(x1, 6);
    let x2 = layer(m.fc_2, 128, 1, a0 + a1);
    let sum = arith::wrap32(x2[0] + arith::wrap32(x0[30] - x0[31]));
    arith::trunc_div(sum * 9600, 16384)
}

impl LayerStack {
    pub closed spec fn model(&self) -> StackModel {
        StackModel {
            fc_0: self.fc_0.model(),
            fc_1: self.fc_1.model(),
            fc_2: self.fc_2.model(),
        }
    }

    pub closed spec fn wf(&self) -> bool {
        self.fc_0.wf() && self.fc_1.wf() && self.fc_2.wf()
    }

    /// A head of given layers.
    pub fn from_layers(fc_0: Affine<1024, 32>, fc_1: Affine<64, 32>, fc_2: Affine<128, 1>) -> (r:
        LayerStack)
        requires
            fc_0.wf(),
            fc_1.wf(),
            fc_2.wf(),
        ensures
            r.wf(),
            r.model() == (StackModel {
                fc_0: fc_0.model(),
                fc_1: fc_1.model(),
                fc_2: fc_2.model(),
            }),
    {
        LayerStack { fc_0, fc_1, fc_2 }
    }

    /// Reads a head.
    fn read(reader: &mut Reader) -> (r: Result<Self, FormatError>)
        ensures
            match stack_stage(old(reader).remaining()) {
                Ok((m, rest)) => r matches Ok(l) && l.wf() && l.model() == m
                    && final(reader).remaining() == rest,
                Err(f) => crate::nnue::format::fails(r, f.0, f.1),
            },
    {
        match reader.read_section_hash(LAYER_STACK_HASH, "layer stack") {
            Ok(_) => {},
            Err(e) => {
                return Err(e);
            },
        }
        let fc_0: Affine<1024, 32> = match Affine::read(reader, "fc_0") {
            Ok(l) => l,
            Err(e) => {
                return Err(e);
            },
        };
        let fc_1: Affine<64, 32> = match Affine::read(reader, "fc_1") {
            Ok(l) => l,
            Err(e) => {
                return Err(e);
            },
        };
        let fc_2: Affine<128, 1> = match Affine::read(reader, "fc_2") {
            Ok(l) => l,
            Err(e) => {
                return Err(e);
            },
        };
        Ok(LayerStack { fc_0, fc_1, fc_2 })
    }

    /// The output for the 1024 transformed features.
    pub fn propagate(&self, transformed: &[u8]) -> (r: i32)
        requires
            self.wf(),
            transformed@.len() == 1024,
        ensures
            r == forward(self.model(), transformed@),
            -1258291200 <= r <= 1258291200,
    {
        let x0: Vec<i32> = self.fc_0.propagate(transformed);
        assert(x0@ =~= layer(self.fc_0.model(), 1024, 32, transformed@));
        let mut concat: Vec<u8> = Vec::new();
        append_activations(x0.as_slice(), 7, &mut concat);
        let ghost a0 = activations(x0@, 7);
        assert(concat@ =~= a0);
        let x1: Vec<i32> = self.fc_1.propagate(concat.as_slice());
        assert(x1@ =~= layer(self.fc_1.model(), 64, 32, a0));
        append_activations(x1.as_slice(), 6, &mut concat);
        assert(concat@ =~= a0 + activations(x1@, 6));
        let x2: Vec<i32> = self.fc_2.propagate(concat.as_slice());
        assert(x2@ =~= layer(self.fc_2.model(), 128, 1, concat@));
        let skip: i32 = x0[30].wrapping_sub(x0[31]);
        let sum: i32 = x2[0].wrapping_add(skip);
        proof {
            arith::lemma_wrap32(x0@[30] - x0@[31], 0);
            arith::lemma_wrap32(x2@[0] + skip, 0);
        }
        let scaled: i64 = (sum as i64 * 9600) / 16384;
        scaled as i32
    }
}

/// Appends the squared and the clipped activations of 32 outputs.
fn append_activations(x: &[i32], bits: i32, out: &mut Vec<u8>)
    requires
        x@.len() == 32,
        0 <= bits <= 28,
    ensures
        final(out)@ == old(out)@ + activations(x@, bits),
{
    let ghost start = out@;
    let mut i: usize = 0;
    while i < 32
        invariant
            x@.len() == 32,
            0 <= bits <= 28,
            i <= 32,
            out@ == start + Seq::new(i as nat, |k: int| sqr_clipped(x@[k], bits)),
        decreases 32 - i,
    {
        out.push(sqr_clipped_relu(x[i], bits));
        i = i + 1;
        assert(out@ =~= start + Seq::new(i as nat, |k: int| sqr_clipped(x@[k], bits)));
    }
    let ghost middle = out@;
    let mut i: usize = 0;
    while i < 32
        invariant
            x@.len() == 32,
            0 <= bits <= 28,
            i <= 32,
            out@ == middle + Seq::new(i as nat, |k: int| clipped(x@[k], bits)),
        decreases 32 - i,
    {
        out.push(clipped_relu(x[i], bits));
        i = i + 1;
        assert(out@ =~= middle + Seq::new(i as nat, |k: int| clipped(x@[k], bits)));
    }
    assert(out@ =~= start + activations(x@, bits));
}

// --- the network ---------------------------------------------------------------------------------

/// The two outputs of the network, for the side to move, in centipawns.
#[derive(Copy, Clone, Debug, PartialEq, Eq, Structural)]
pub struct NetworkOutput {
    pub psqt: i32,
    pub positional: i32,
}

impl NetworkOutput {
    /// Both outputs together.
    pub fn raw(&self) -> (r: i32)
        requires
            i32::MIN <= self.psqt + self.positional <= i32::MAX,
        ensures
            r == self.psqt + self.positional,
    {
        self.psqt + self.positional
    }
}

/// A network that was read completely.
pub struct Network {
    ft: FeatureTransformer,
    stacks: Vec<LayerStack>,
    /// What the file says of itself.
    pub description: String,
}

/// What a network file holds.
pub struct NetModel {
    pub ft: FtModel,
    pub stacks: Seq<StackModel>,
    pub description: Seq<char>,
}

/// What reading `n` heads gives and leaves.
pub open spec fn stacks_stage(b: Seq<u8>, n: nat) -> Result<(Seq<StackModel>, Seq<u8>), Fault>
    decreases n,
{
    if n == 0 {
        Ok((Seq::empty(), b))
    } else {
        match stacks_stage(b, (n - 1) as nat) {
            Err(f) => Err(f),
            Ok((s, b1)) => match stack_stage(b1) {
                Err(f) => Err(f),
                Ok((m, b2)) => Ok((s.push(m), b2)),
            },
        }
    }
}

/// What reading the header leaves: the description and the bytes after it.
pub open spec fn header_stage(b: Seq<u8>, expected: u32) -> Result<(Seq<char>, Seq<u8>), Fault> {
    let ctx = "net header"@;
    if b.len() < 4 {
        Err((ctx, "file is too short to contain a version"@))
    } else if crate::nnue::format::le_u32(b) != crate::nnue::format::VERSION {
        Err((ctx, "unsupported net version (expected 0x6A448AFA)"@))
    } else if b.len() < 8 {
        Err((ctx, "file is too short to contain a network hash"@))
    } else if crate::nnue::format::le_u32(b.skip(4)) != expected {
        Err((ctx, "network architecture hash mismatch (net built for a different engine)"@))
    } else if b.len() < 12 {
        Err((ctx, "file is truncated in the description"@))
    } else if crate::nnue::format::le_u32(b.skip(8)) > crate::nnue::format::MAX_DESCRIPTION {
        Err((ctx, "implausible description length (corrupt file)"@))
    } else if b.len() < 12 + crate::nnue::format::le_u32(b.skip(8)) {
        Err((ctx, "file is truncated in the description"@))
    } else {
        let n = crate::nnue::format::le_u32(b.skip(8)) as int;
        Ok((crate::nnue::format::lossy_text(b.subrange(12, 12 + n)), b.skip(12 + n)))
    }
}

/// What a whole network file gives.
pub open spec fn net_of(b: Seq<u8>) -> Result<NetModel, Fault> {
    match header_stage(b, NETWORK_HASH) {
        Err(f) => Err(f),
        Ok((description, b0)) => match ft_stage(b0) {
            Err(f) => Err(f),
            Ok((ft, b1)) => match stacks_stage(b1, 8) {
                Err(f) => Err(f),
                Ok((stacks, b2)) => if b2.len() == 0 {
                    Ok(NetModel { ft, stacks, description })
                } else {
                    Err(("net file"@, "unexpected trailing data"@))
                },
            },
        },
    }
}

/// `x` within the clipping range of the features.
pub open spec fn clip(x: i16) -> int {
    arith::within(x as int, 0, 255)
}

/// One transformed feature of a side: the product of two clipped sums.
pub open spec fn transformed_at(acc: Seq<i16>, j: int) -> u8 {
    (clip(acc[j]) * clip(acc[j + 512]) / 512) as u8
}

/// The transformed features of a side.
pub open spec fn transformed(acc: Seq<i16>) -> Seq<u8> {
    Seq::new(512, |j: int| transformed_at(acc, j))
}

impl Network {
    pub closed spec fn transformer(&self) -> FeatureTransformer {
        self.ft
    }

    pub closed spec fn text(&self) -> Seq<char> {
        self.description@
    }

    pub closed spec fn heads(&self) -> Seq<LayerStack> {
        self.stacks@
    }

    pub closed spec fn wf(&self) -> bool {
        &&& self.ft.wf()
        &&& self.stacks@.len() == 8
        &&& forall|i: int| 0 <= i < 8 ==> (#[trigger] self.stacks@[i]).wf()
    }

    /// A network of a transformer and eight heads.
    pub fn from_parts(ft: FeatureTransformer, stacks: Vec<LayerStack>, description: String) -> (r:
        Network)
        requires
            ft.wf(),
            stacks@.len() == 8,
            forall|i: int| 0 <= i < 8 ==> (#[trigger] stacks@[i]).wf(),
        ensures
            r.wf(),
            r.transformer() == ft,
            r.heads() == stacks@,
            r.text() == description@,
    {
        Network { ft, stacks, description }
    }

    /// The feature transformer.
    pub fn feature_transformer(&self) -> (r: &FeatureTransformer)
        requires
            self.wf(),
        ensures
            *r == self.transformer(),
            r.wf(),
    {
        &self.ft
    }

    /// How many input features the network has.
    pub fn input_dimensions(&self) -> (r: usize)
        ensures
            r == 22528 + 59808 + 4560,
    {
        INPUT_DIMENSIONS
    }

    /// The hash of the shape that the network was held to.
    pub fn hash(&self) -> (r: u32)
        ensures
            r == NETWORK_HASH,
    {
        NETWORK_HASH
    }

    /// Transforms the sums of one side into `out`, from `offset` on.
    pub fn transform_perspective(acc: &[i16; 1024], out: &mut [u8; 1024], offset: usize)
        requires
            offset <= 512,
        ensures
            forall|j: int|
                0 <= j < 512 ==> #[trigger] final(out)@[offset + j] == transformed_at(acc@, j),
            forall|k: int|
                0 <= k < 1024 && !(offset <= k < offset + 512) ==> #[trigger] final(out)@[k] == old(
                    out,
                )@[k],
    {
        let ghost before = out@;
        let mut j: usize = 0;
        while j < 512
            invariant
                j <= 512,
                offset <= 512,
                forall|k: int|
                    offset <= k < offset + j ==> #[trigger] out@[k] == transformed_at(
                        acc@,
                        k - offset,
                    ),
                forall|k: int|
                    0 <= k < 1024 && !(offset <= k < offset + j) ==> #[trigger] out@[k]
                        == before[k],
            decreases 512 - j,
        {
            let lo: i32 = arith::clamp_i32(acc[j] as i32, 0, 255);
            let hi: i32 = arith::clamp_i32(acc[j + 512] as i32, 0, 255);
            proof {
                assert(0 <= lo * hi <= 65025) by (nonlinear_arith)
                    requires
                        0 <= lo <= 255,
                        0 <= hi <= 255,
                ;
            }
            out[offset + j] = (lo * hi / 512) as u8;
            j = j + 1;
        }
        assert forall|j: int| 0 <= j < 512 implies #[trigger] out@[offset + j] == transformed_at(
            acc@,
            j,
        ) by {
            assert(out@[offset + j] == transformed_at(acc@, (offset + j) - offset));
        }
    }

    /// The outputs for the accumulated features of both sides, by the head of
    /// the piece-count bucket.
    pub fn evaluate_sums(
        &self,
        own: &[i16; 1024],
        other: &[i16; 1024],
        own_psqt: i32,
        other_psqt: i32,
        bucket: usize,
    ) -> (r: NetworkOutput)
        requires
            self.wf(),
        ensures
            r == network_output(self.heads(), own@, other@, own_psqt, other_psqt, bucket as int),
            -134217728 <= r.psqt <= 134217728,
            -134217728 <= r.positional <= 134217728,
    {
        let k: usize = if bucket < 8 {
            bucket
        } else {
            7
        };
        let diff: i32 = own_psqt.wrapping_sub(other_psqt);
        proof {
            arith::lemma_wrap32(own_psqt - other_psqt, 0);
        }
        let psqt: i32 = diff / 2;
        let mut features: [u8; 1024] = [0u8; 1024];
        Self::transform_perspective(own, &mut features, 0);
        let ghost half = features@;
        Self::transform_perspective(other, &mut features, 512);
        proof {
            assert forall|j: int| 0 <= j < 1024 implies features@[j] == (transformed(own@)
                + transformed(other@))[j] by {
                if j < 512 {
                    assert(features@[j] == half[j]);
                    assert(half[0 + j] == transformed_at(own@, j));
                } else {
                    assert(features@[512 + (j - 512)] == transformed_at(other@, j - 512));
                }
            }
            assert(features@ =~= transformed(own@) + transformed(other@));
        }
        let positional: i32 = self.stacks[k].propagate(&features);
        NetworkOutput { psqt: psqt / OUTPUT_SCALE, positional: positional / OUTPUT_SCALE }
    }
}

/// The outputs for given sums.
pub open spec fn network_output(
    heads: Seq<LayerStack>,
    own: Seq<i16>,
    other: Seq<i16>,
    own_psqt: i32,
    other_psqt: i32,
    bucket: int,
) -> NetworkOutput {
    let head = heads[if bucket < 8 {
        bucket
    } else {
        7
    }];
    NetworkOutput {
        psqt: arith::trunc_div(
            arith::trunc_div(arith::wrap32(own_psqt - other_psqt), 2),
            16,
        ) as i32,
        positional: arith::trunc_div(
            forward(head.model(), transformed(own) + transformed(other)),
            16,
        ) as i32,
    }
}

/// Why a network could not be loaded.
#[derive(Debug)]
pub enum LoadError {
    /// The file could not be read, in the system's words.
    Io(String),
    /// The file is no network that can be run.
    Format(FormatError),
}

impl LoadError {
    /// The error in words.
    pub fn message(&self) -> (r: String)
        ensures
            r@ == (match self {
                LoadError::Io(e) => "cannot read the net file: "@ + e@,
                LoadError::Format(e) => "invalid net: "@ + (e.context@ + ": "@ + e.reason@),
            }),
    {
        match self {
            LoadError::Io(e) => {
                let mut out: String = "cannot read the net file: ".to_owned();
                out.append(e.as_str());
                out
            },
            LoadError::Format(e) => {
                let mut out: String = "invalid net: ".to_owned();
                out.append(e.message().as_str());
                out
            },
        }
    }
}

/// Reads a network, of which nothing may be left over.
#[verifier::spinoff_prover]
pub fn load_from(reader: &mut Reader) -> (r: Result<Network, FormatError>)
    ensures
        match net_of(old(reader).remaining()) {
            Ok(m) => r matches Ok(n) && n.wf() && n.transformer().model() == m.ft
                && n.heads().map_values(|h: LayerStack| h.model()) == m.stacks && n.text()
                == m.description,
            Err(f) => crate::nnue::format::fails(r, f.0, f.1),
        },
{
    let header: Header = match reader.read_header(NETWORK_HASH) {
        Ok(h) => h,
        Err(e) => {
            return Err(e);
        },
    };
    let ft: FeatureTransformer = match FeatureTransformer::read(reader) {
        Ok(t) => t,
        Err(e) => {
            return Err(e);
        },
    };
    let ghost b1 = reader.remaining();
    let mut stacks: Vec<LayerStack> = Vec::new();
    let mut i: usize = 0;
    proof {
        assert(stacks@.map_values(|h: LayerStack| h.model()) =~= Seq::empty());
    }
    while i < 8
        invariant
            i <= 8,
            stacks@.len() == i,
            forall|k: int| 0 <= k < i ==> (#[trigger] stacks@[k]).wf(),
            stacks_stage(b1, i as nat) == Ok::<(Seq<StackModel>, Seq<u8>), Fault>(
                (stacks@.map_values(|h: LayerStack| h.model()), reader.remaining()),
            ),
            net_of(old(reader).remaining()) == (match stacks_stage(b1, 8) {
                Err(f) => Err(f),
                Ok((s, b2)) => if b2.len() == 0 {
                    Ok(
                        NetModel {
                            ft: ft.model(),
                            stacks: s,
                            description: header.description@,
                        },
                    )
                } else {
                    Err(("net file"@, "unexpected trailing data"@))
                },
            }),
        decreases 8 - i,
    {
        let ghost before = stacks@;
        match LayerStack::read(reader) {
            Ok(s) => {
                stacks.push(s);
                assert(stacks@.map_values(|h: LayerStack| h.model()) =~= before.map_values(
                    |h: LayerStack| h.model(),
                ).push(s.model()));
            },
            Err(e) => {
                proof {
                    lemma_stacks_err(b1, (i + 1) as nat, 8);
                }
                return Err(e);
            },
        }
        i = i + 1;
    }
    match reader.expect_eof("net file") {
        Ok(_) => Ok(Network { ft, stacks, description: header.description }),
        Err(e) => Err(e),
    }
}

/// An error in reading some heads is the error of reading more.
proof fn lemma_stacks_err(b: Seq<u8>, m: nat, n: nat)
    requires
        m <= n,
        stacks_stage(b, m) is Err,
    ensures
        stacks_stage(b, n) == stacks_stage(b, m),
    decreases n,
{
    if m < n {
        lemma_stacks_err(b, m, (n - 1) as nat);
    }
}

} // verus!
