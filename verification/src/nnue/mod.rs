//! Network evaluation: a position scored by a trained network.
//!
//! A board is rebuilt from its position where it is needed, and a move yields
//! the next board together with everything that it changed, so that a board
//! cannot drift away from its position. Accumulators live in a stack with one
//! slot for each ply.
pub mod accumulator;
pub mod attacks;
pub mod balance;
pub mod board;
pub mod capacity;
pub mod embedded;
pub mod features;
pub mod flip;
pub mod format;
pub mod geometry;
pub mod heads;
pub mod incremental;
pub mod network;
pub mod room;
pub mod types;

use vstd::prelude::*;
use crate::arith;
use crate::bits;
use crate::board::{Placement, Position};
use crate::nnue::accumulator::Accumulator;
use crate::nnue::board::Board;
use crate::nnue::network::{Network, NetworkOutput};
use crate::nnue::types::Color;

pub use accumulator::{AccumulatorStack, L1, LAYER_STACKS, PSQT_BUCKETS};
pub use board::MoveDirties;
pub use embedded::{embedded_network_size, load_embedded_network};
pub use network::{load_from, LoadError, NETWORK_HASH};
pub use types::{PIECE_VALUE, SQ_NONE};

verus! {

/// The name of the network that the engine comes with.
pub const DEFAULT_NET_FILE: &'static str = "nn-1a298aa575a0.nnue";

/// The highest score: one that cannot be taken for a mate or for a tablebase
/// result.
pub const EVAL_LIMIT: i32 = 23_870;

/// What the score of a position depends on besides the sums.
#[derive(Copy, Clone, Debug, PartialEq, Eq, Structural)]
pub struct EvalMeta {
    /// The side to move.
    pub stm: Color,
    /// The pieces on the board.
    pub piece_count: u32,
    /// The pawns of both sides.
    pub pawns: i32,
    /// The value of the other pieces of both sides, kings left out.
    pub non_pawn_material: i32,
    /// How many plies ago a pawn moved or a piece was captured.
    pub rule50: u32,
}

/// The score depends on these facts of a position.
pub open spec fn meta_of(sq: Seq<u8>, stm: Color, rule50: u32) -> EvalMeta {
    EvalMeta {
        stm,
        piece_count: board::tally(sq, |v: u8| v != 0) as u32,
        pawns: board::tally(sq, |v: u8| v == 1 || v == 9) as i32,
        non_pawn_material: board::non_pawn_value(sq) as i32,
        rule50,
    }
}

impl EvalMeta {
    /// The facts of a position, read off its board.
    pub fn of(pos: &Position, board: &Board) -> (r: EvalMeta)
        requires
            board.wf(),
        ensures
            r == meta_of(board.sq(), pos.facts_spec().turn, pos.facts_spec().halfmoves),
    {
        let pawns: u64 = board.all_pawns();
        proof {
            board.lemma_valid();
            lemma_pawn_count(board.sq(), pawns);
        }
        let pieces: u32 = board.piece_count();
        let count: u32 = bits::count(pawns);
        let value: i32 = board.non_pawn_material();
        EvalMeta {
            stm: pos.turn(),
            piece_count: pieces,
            pawns: count as i32,
            non_pawn_material: value,
            rule50: pos.halfmoves(),
        }
    }

    /// The same facts, read off the position itself.
    pub fn of_position(pos: &Position) -> (r: EvalMeta)
        ensures
            r == meta_of(
                pos.board_spec().sq(),
                pos.facts_spec().turn,
                pos.facts_spec().halfmoves,
            ),
            0 <= r.pawns <= 64,
            0 <= r.non_pawn_material <= 1000000,
    {
        let b: &Placement = pos.board();
        proof {
            lemma_placement_counts(*b);
        }
        EvalMeta {
            stm: pos.turn(),
            piece_count: bits::count(b.occupied()),
            pawns: bits::count(b.pawns) as i32,
            non_pawn_material: non_pawn_material_of(b),
            rule50: pos.halfmoves(),
        }
    }

    /// The head of the network that scores so many pieces: four pieces to a
    /// head.
    pub fn bucket(&self) -> (r: usize)
        ensures
            r == bucket_of(self.piece_count as int),
    {
        let n: u32 = if self.piece_count < 1 {
            1
        } else {
            self.piece_count
        };
        ((n - 1) / 4) as usize
    }
}

/// The head of the network for a number of pieces.
pub open spec fn bucket_of(pieces: int) -> int {
    if pieces < 1 {
        0
    } else {
        (pieces - 1) / 4
    }
}

/// The value of the pieces of both sides that are neither pawns nor kings.
pub fn non_pawn_material_of(b: &Placement) -> (r: i32)
    requires
        b.consistent(),
    ensures
        r == board::non_pawn_value(b.sq()),
        0 <= r <= 1000000,
{
    proof {
        lemma_placement_counts(*b);
        bits::lemma_ones_set(b.knights);
        bits::lemma_ones_set(b.bishops);
        bits::lemma_ones_set(b.rooks);
        bits::lemma_ones_set(b.queens);
    }
    781 * bits::count(b.knights) as i32 + 825 * bits::count(b.bishops) as i32 + 1276 * bits::count(
        b.rooks,
    ) as i32 + 2538 * bits::count(b.queens) as i32
}

/// The set of the squares with a property has as many squares as hold it.
proof fn lemma_ones_tally(sq: Seq<u8>, bb: u64, p: spec_fn(u8) -> bool)
    requires
        sq.len() == 64,
        forall|s: int| 0 <= s < 64 ==> #[trigger] bits::mem(bb, s) == p(sq[s]),
    ensures
        bits::ones(bb) == board::tally(sq, p),
        bits::ones(bb) <= 64,
{
    bits::lemma_ones_set(bb);
    assert(bits::squares(bb) =~= board::where_piece(sq, p));
}

proof fn lemma_pawn_count(sq: Seq<u8>, bb: u64)
    requires
        sq.len() == 64,
        forall|s: int| #[trigger]
            bits::mem(bb, s) == (0 <= s < 64 && (sq[s] == 1 || sq[s] == 9)),
    ensures
        bits::ones(bb) == board::tally(sq, |v: u8| v == 1 || v == 9),
        bits::ones(bb) <= 64,
{
    lemma_ones_tally(sq, bb, |v: u8| v == 1 || v == 9);
}

/// Two kinds of square together.
proof fn lemma_tally_two(sq: Seq<u8>, a: int, b: int, bb: u64)
    requires
        sq.len() == 64,
        a != b,
        forall|s: int| 0 <= s < 64 ==> #[trigger] bits::mem(bb, s) == (sq[s] == a || sq[s] == b),
    ensures
        bits::ones(bb) == board::count_of(sq, a) + board::count_of(sq, b),
{
    let p = board::is_code(a);
    let q = board::is_code(b);
    let both = |v: u8| v == a || v == b;
    lemma_ones_tally(sq, bb, both);
    let x = board::where_piece(sq, p);
    let y = board::where_piece(sq, q);
    board::lemma_tally(sq, p, 0, 0);
    board::lemma_tally(sq, q, 0, 0);
    assert(x.disjoint(y));
    vstd::set_lib::lemma_set_disjoint_lens(x, y);
    assert(x + y =~= board::where_piece(sq, both));

}

/// The sets of a placement count what its squares hold.
proof fn lemma_placement_counts(b: Placement)
    requires
        b.consistent(),
    ensures
        bits::ones(b.white | b.black) == board::tally(b.sq(), |v: u8| v != 0),
        bits::ones(b.pawns) == board::tally(b.sq(), |v: u8| v == 1 || v == 9),
        bits::ones(b.knights) == board::count_of(b.sq(), 2) + board::count_of(b.sq(), 10),
        bits::ones(b.bishops) == board::count_of(b.sq(), 3) + board::count_of(b.sq(), 11),
        bits::ones(b.rooks) == board::count_of(b.sq(), 4) + board::count_of(b.sq(), 12),
        bits::ones(b.queens) == board::count_of(b.sq(), 5) + board::count_of(b.sq(), 13),
{
    let sq = b.sq();
    assert forall|s: int| 0 <= s < 64 implies #[trigger] bits::mem(b.white | b.black, s) == (sq[s]
        != 0) by {
        bits::mem_or(b.white, b.black, s);
        assert(b.role_code(s) == b.role_code(s));
    }
    lemma_ones_tally(sq, b.white | b.black, |v: u8| v != 0);
    assert forall|s: int| 0 <= s < 64 implies #[trigger] bits::mem(b.pawns, s) == (sq[s] == 1
        || sq[s] == 9) by {
        assert(b.role_code(s) == b.role_code(s));
    }
    lemma_ones_tally(sq, b.pawns, |v: u8| v == 1 || v == 9);
    assert forall|s: int| 0 <= s < 64 implies #[trigger] bits::mem(b.knights, s) == (sq[s] == 2
        || sq[s] == 10) by {
        assert(b.role_code(s) == b.role_code(s));
    }
    lemma_tally_two(sq, 2, 10, b.knights);
    assert forall|s: int| 0 <= s < 64 implies #[trigger] bits::mem(b.bishops, s) == (sq[s] == 3
        || sq[s] == 11) by {
        assert(b.role_code(s) == b.role_code(s));
    }
    lemma_tally_two(sq, 3, 11, b.bishops);
    assert forall|s: int| 0 <= s < 64 implies #[trigger] bits::mem(b.rooks, s) == (sq[s] == 4
        || sq[s] == 12) by {
        assert(b.role_code(s) == b.role_code(s));
    }
    lemma_tally_two(sq, 4, 12, b.rooks);
    assert forall|s: int| 0 <= s < 64 implies #[trigger] bits::mem(b.queens, s) == (sq[s] == 5
        || sq[s] == 13) by {
        assert(b.role_code(s) == b.role_code(s));
    }
    lemma_tally_two(sq, 5, 13, b.queens);
}

// --- the final score -----------------------------------------------------------------------

/// The two outputs together, less where they disagree.
pub open spec fn damped(out: NetworkOutput) -> int {
    let raw = out.psqt + out.positional;
    let complexity = if out.psqt >= out.positional {
        out.psqt - out.positional
    } else {
        out.positional - out.psqt
    };
    raw - arith::trunc_div(raw * complexity, 18236)
}

/// What the score is scaled by: pawns and pieces of both sides.
pub open spec fn material_of(meta: EvalMeta) -> int {
    534 * meta.pawns + meta.non_pawn_material
}

/// The score scaled by the material, in thirty-two bits.
pub open spec fn scaled(out: NetworkOutput, meta: EvalMeta) -> int {
    arith::wrap32(damped(out) + arith::trunc_div(damped(out) * material_of(meta), 91000))
}

/// The score after the counter of quiet plies: less the longer nothing has
/// happened.
pub open spec fn aged(v: int, rule50: u32) -> int {
    v - arith::trunc_div(v * arith::wrap32(rule50 as int), 199)
}

/// The final score, within the limit.
pub open spec fn blended(out: NetworkOutput, meta: EvalMeta) -> int {
    arith::within(
        aged(scaled(out, meta), meta.rule50),
        -(EVAL_LIMIT as int),
        EVAL_LIMIT as int,
    )
}

/// Every step up to the scaled score fits its machine integer.
pub open spec fn scalable(out: NetworkOutput, meta: EvalMeta) -> bool {
    &&& i32::MIN <= out.psqt + out.positional <= i32::MAX
    &&& i32::MIN < out.psqt - out.positional <= i32::MAX
    &&& i32::MIN <= 534 * meta.pawns <= i32::MAX
    &&& i32::MIN <= material_of(meta) <= i32::MAX
    &&& i64::MIN <= damped(out) * material_of(meta) <= i64::MAX
    &&& i64::MIN <= damped(out) + arith::trunc_div(damped(out) * material_of(meta), 91000)
        <= i64::MAX
}

/// A score and the counter fit their machine integers together.
pub open spec fn ages(v: int, rule50: u32) -> bool {
    &&& i32::MIN <= v * arith::wrap32(rule50 as int) <= i32::MAX
    &&& i32::MIN <= aged(v, rule50) <= i32::MAX
}

/// Every step of the final score fits its machine integer.
pub open spec fn blendable(out: NetworkOutput, meta: EvalMeta) -> bool {
    scalable(out, meta) && ages(scaled(out, meta), meta.rule50)
}

/// The low thirty-two bits, as a signed integer.
fn low32(x: i64) -> (r: i32)
    ensures
        r == arith::wrap32(x as int),
{
    assert((x as i32) == ((x + 2147483648) % 4294967296) - 2147483648) by (bit_vector);
    #[verifier::truncate]
    (x as i32)
}

/// The score scaled by the material.
fn scale(out: NetworkOutput, meta: &EvalMeta) -> (r: i32)
    requires
        scalable(out, *meta),
    ensures
        r == scaled(out, *meta),
{
    let raw: i64 = out.raw() as i64;
    let diff: i32 = out.psqt - out.positional;
    let complexity: i64 = if diff >= 0 {
        diff as i64
    } else {
        (-diff) as i64
    };
    assert(-0x4000_0000_0000_0000 <= raw * complexity <= 0x4000_0000_0000_0000) by (nonlinear_arith)
        requires
            -0x8000_0000 <= raw <= 0x8000_0000,
            0 <= complexity <= 0x8000_0000,
    ;
    let tax: i64 = raw * complexity / 18236;
    let v0: i64 = raw - tax;
    let material: i32 = 534 * meta.pawns + meta.non_pawn_material;
    assert(v0 == damped(out));
    low32(v0 + v0 * (material as i64) / 91000)
}

/// The final score, for the side to move, in centipawns.
pub fn blend(out: NetworkOutput, meta: &EvalMeta) -> (r: i32)
    requires
        blendable(out, *meta),
    ensures
        r == blended(out, *meta),
        -EVAL_LIMIT <= r <= EVAL_LIMIT,
{
    let v: i32 = scale(out, meta);
    let quiet: i32 = low32(meta.rule50 as i64);
    let score: i32 = v - v * quiet / 199;
    arith::clamp_i32(score, -EVAL_LIMIT, EVAL_LIMIT)
}

/// The final score; nothing where the counter of quiet plies is too high for the
/// score to be taken down by it.
fn try_blend(out: NetworkOutput, meta: &EvalMeta) -> (r: Option<i32>)
    requires
        scalable(out, *meta),
    ensures
        r is Some <==> ages(scaled(out, *meta), meta.rule50),
        r matches Some(s) ==> s == blended(out, *meta) && -EVAL_LIMIT <= s <= EVAL_LIMIT,
{
    let v: i32 = scale(out, meta);
    let quiet: i32 = low32(meta.rule50 as i64);
    match v.checked_mul(quiet) {
        None => None,
        Some(p) => match v.checked_sub(p / 199) {
            None => None,
            Some(score) => Some(arith::clamp_i32(score, -EVAL_LIMIT, EVAL_LIMIT)),
        },
    }
}

/// The sum times the difference is the difference of the squares.
proof fn lemma_squares(a: int, b: int)
    requires
        -134217728 <= a <= 134217728,
        -134217728 <= b <= 134217728,
    ensures
        -0x40_0000_0000_0000 <= (a + b) * (a - b) <= 0x40_0000_0000_0000,
        -0x40_0000_0000_0000 <= (a + b) * (b - a) <= 0x40_0000_0000_0000,
{
    assert((a + b) * (a - b) == a * a - b * b) by (nonlinear_arith);
    assert((a + b) * (b - a) == b * b - a * a) by (nonlinear_arith);
    assert(0 <= a * a <= 0x40_0000_0000_0000) by (nonlinear_arith)
        requires
            -134217728 <= a <= 134217728,
    ;
    assert(0 <= b * b <= 0x40_0000_0000_0000) by (nonlinear_arith)
        requires
            -134217728 <= b <= 134217728,
    ;
}

/// The outputs of a network and the material of a board can be put together.
proof fn lemma_scalable(out: NetworkOutput, meta: EvalMeta)
    requires
        -134217728 <= out.psqt <= 134217728,
        -134217728 <= out.positional <= 134217728,
        0 <= meta.pawns <= 64,
        0 <= meta.non_pawn_material <= 1000000,
    ensures
        scalable(out, meta),
{
    let v = damped(out);
    let m = material_of(meta);
    lemma_squares(out.psqt as int, out.positional as int);
    assert(-0x400_0000_0000 <= v <= 0x400_0000_0000);
    assert(-0x4000_0000_0000_0000 <= v * m <= 0x4000_0000_0000_0000) by (nonlinear_arith)
        requires
            -0x400_0000_0000 <= v <= 0x400_0000_0000,
            0 <= m <= 1048576,
    ;
}

/// A score from the other side of the board: with both outputs turned round, the
/// final score is turned round too. Left out is the one scaled score whose
/// opposite no thirty-two-bit integer holds.
pub proof fn law_blend_is_odd(out: NetworkOutput, turned: NetworkOutput, meta: EvalMeta)
    requires
        turned.psqt == -out.psqt,
        turned.positional == -out.positional,
        scaled(out, meta) != i32::MIN,
    ensures
        scaled(turned, meta) == -scaled(out, meta),
        blended(turned, meta) == -blended(out, meta),
{
    let raw = out.psqt + out.positional;
    let gap = if out.psqt >= out.positional {
        out.psqt - out.positional
    } else {
        out.positional - out.psqt
    };
    assert((-raw) * gap == -(raw * gap)) by (nonlinear_arith);
    assert(damped(turned) == -damped(out));
    let v = damped(out);
    let m = material_of(meta);
    assert((-v) * m == -(v * m)) by (nonlinear_arith);
    let s = scaled(out, meta);
    assert(scaled(turned, meta) == -s);
    let q = arith::wrap32(meta.rule50 as int);
    assert((-s) * q == -(s * q)) by (nonlinear_arith);
}

/// A score that has been taken down by a counter of quiet plies.
proof fn lemma_aged(v: int, r: u32, q: u32)
    requires
        r <= q <= 199,
    ensures
        0 <= v ==> 0 <= aged(v, q) <= aged(v, r) <= v,
        v <= 0 ==> v <= aged(v, r) <= aged(v, q) <= 0,
{
    let r0 = r as int;
    let q0 = q as int;
    assert(arith::wrap32(r0) == r0 && arith::wrap32(q0) == q0);
    if v >= 0 {
        assert(0 <= v * r0 <= v * q0 <= v * 199) by (nonlinear_arith)
            requires
                0 <= v,
                0 <= r0 <= q0 <= 199,
        ;
    } else {
        let u = -v;
        assert(0 <= u * r0 <= u * q0 <= u * 199) by (nonlinear_arith)
            requires
                0 <= u,
                0 <= r0 <= q0 <= 199,
        ;
        assert(v * r0 == -(u * r0) && v * q0 == -(u * q0)) by (nonlinear_arith)
            requires
                u == -v,
        ;
        if r0 > 0 {
            assert(u * r0 > 0) by (nonlinear_arith)
                requires
                    u > 0,
                    r0 > 0,
            ;
        }
        if q0 > 0 {
            assert(u * q0 > 0) by (nonlinear_arith)
                requires
                    u > 0,
                    q0 > 0,
            ;
        }
    }
}

/// The longer nothing has happened, the nearer a score is to zero: more quiet
/// plies make it no larger and never turn it round. From 200 plies on a large
/// score is turned round.
pub proof fn law_blend_fades(out: NetworkOutput, meta: EvalMeta, later: EvalMeta)
    requires
        later == (EvalMeta { rule50: later.rule50, ..meta }),
        meta.rule50 <= later.rule50 <= 199,
    ensures
        0 <= blended(out, meta) ==> 0 <= blended(out, later) <= blended(out, meta),
        blended(out, meta) <= 0 ==> blended(out, meta) <= blended(out, later) <= 0,
        -EVAL_LIMIT <= blended(out, meta) <= EVAL_LIMIT,
{
    assert(scaled(out, later) == scaled(out, meta));
    lemma_aged(scaled(out, meta), meta.rule50, later.rule50);
}

/// Outputs up to 10000, the material of a game and a counter up to 199 can be
/// put together without running over, and the scaled score is small.
pub proof fn law_ordinary_scores_blend(out: NetworkOutput, meta: EvalMeta)
    requires
        -10000 <= out.psqt <= 10000,
        -10000 <= out.positional <= 10000,
        0 <= meta.pawns <= 16,
        0 <= meta.non_pawn_material <= 20000,
        meta.rule50 <= 199,
    ensures
        blendable(out, meta),
        -60000 <= scaled(out, meta) <= 60000,
{
    lemma_scalable(out, meta);
    let raw = out.psqt + out.positional;
    let gap = if out.psqt >= out.positional {
        out.psqt - out.positional
    } else {
        out.positional - out.psqt
    };
    assert(-400000000 <= raw * gap <= 400000000) by (nonlinear_arith)
        requires
            -20000 <= raw <= 20000,
            0 <= gap <= 20000,
    ;
    let v = damped(out);
    let m = material_of(meta);
    assert(-41935 <= v <= 41935);
    assert(-1200000000 <= v * m <= 1200000000) by (nonlinear_arith)
        requires
            -41935 <= v <= 41935,
            0 <= m <= 28544,
    ;
    let s = scaled(out, meta);
    assert(-60000 <= s <= 60000);
    let q = meta.rule50 as int;
    assert(-12000000 <= s * q <= 12000000) by (nonlinear_arith)
        requires
            -60000 <= s <= 60000,
            0 <= q <= 199,
    ;
    lemma_aged(s, meta.rule50, meta.rule50);
}

/// What the score of a position depends on, and the outputs of a network for it.
pub open spec fn told(net: &Network, pos: &Position, acc: &Accumulator) -> (EvalMeta, NetworkOutput) {
    let meta = meta_of(pos.board_spec().sq(), pos.facts_spec().turn, pos.facts_spec().halfmoves);
    (meta, accumulator::outputs(net, acc, meta.stm, bucket_of(meta.piece_count as int)))
}

fn tell(net: &Network, pos: &Position, acc: &Accumulator) -> (r: (EvalMeta, NetworkOutput))
    requires
        net.wf(),
    ensures
        r == told(net, pos, acc),
        scalable(r.1, r.0),
{
    let meta: EvalMeta = EvalMeta::of_position(pos);
    let out: NetworkOutput = net.evaluate(acc, meta.stm, meta.bucket());
    proof {
        lemma_scalable(out, meta);
    }
    (meta, out)
}

/// The score of a position whose sums `acc` holds, for the side to move, in
/// centipawns.
pub fn evaluate(net: &Network, pos: &Position, acc: &Accumulator) -> (r: i32)
    requires
        net.wf(),
        ages(
            scaled(told(net, pos, acc).1, told(net, pos, acc).0),
            pos.facts_spec().halfmoves,
        ),
    ensures
        r == blended(told(net, pos, acc).1, told(net, pos, acc).0),
        -EVAL_LIMIT <= r <= EVAL_LIMIT,
{
    let (meta, out) = tell(net, pos, acc);
    blend(out, &meta)
}

/// The same score; nothing where the counter of quiet plies is too high for the
/// score to be taken down by it.
pub fn evaluate_checked(net: &Network, pos: &Position, acc: &Accumulator) -> (r: Option<i32>)
    requires
        net.wf(),
    ensures
        r is Some <==> ages(
            scaled(told(net, pos, acc).1, told(net, pos, acc).0),
            pos.facts_spec().halfmoves,
        ),
        r matches Some(s) ==> s == blended(told(net, pos, acc).1, told(net, pos, acc).0)
            && -EVAL_LIMIT <= s <= EVAL_LIMIT,
{
    let (meta, out) = tell(net, pos, acc);
    try_blend(out, &meta)
}

/// The board of a position together with what else its score depends on.
pub fn board_and_meta(pos: &Position) -> (r: (Board, EvalMeta))
    ensures
        r.0.wf(),
        r.0.sq() == pos.board_spec().sq(),
        r.1 == meta_of(r.0.sq(), pos.facts_spec().turn, pos.facts_spec().halfmoves),
{
    let board: Board = Board::from_position(pos);
    let meta: EvalMeta = EvalMeta::of(pos, &board);
    (board, meta)
}

/// The path that a configured path stands for: itself, or where it is empty the
/// network that the engine comes with.
pub open spec fn net_base_spec(path: Seq<char>) -> Seq<char> {
    if path.len() == 0 {
        "nnue/"@ + DEFAULT_NET_FILE@
    } else {
        path
    }
}

/// The path that a configured path stands for.
pub fn net_base(path: &str) -> (r: String)
    ensures
        r@ == net_base_spec(path@),
{
    if path.unicode_len() == 0 {
        let mut s: String = "nnue/".to_owned();
        s.append(DEFAULT_NET_FILE);
        s
    } else {
        path.to_owned()
    }
}

/// The file to load for a configured path: the path as it stands where there is
/// such a file, else the file of that name next to the executable, else the
/// path as it stands, so that an error names it.
pub fn resolve_net_path(path: &str, is_file: bool, beside: Option<String>) -> (r: String)
    ensures
        is_file ==> r@ == net_base_spec(path@),
        !is_file ==> r@ == (match beside {
            Some(found) => found@,
            None => net_base_spec(path@),
        }),
{
    if is_file {
        return net_base(path);
    }
    match beside {
        Some(found) => found,
        None => net_base(path),
    }
}

// --- laws -----------------------------------------------------------------------------------------

/// A head scores four numbers of pieces, from the fewest on.
pub proof fn law_heads_by_pieces(pieces: int)
    requires
        1 <= pieces <= 32,
    ensures
        0 <= bucket_of(pieces) < 8,
        4 * bucket_of(pieces) < pieces <= 4 * bucket_of(pieces) + 4,
{
}

/// Where the two outputs disagree more, the score is nearer to zero and keeps its side; where
/// they agree, it is their sum.
pub proof fn law_disagreement_damps(out: NetworkOutput, split: NetworkOutput, gap: int, wider: int)
    requires
        out.psqt + out.positional == split.psqt + split.positional,
        0 <= gap <= wider <= 18236,
        out.psqt - out.positional == gap || out.positional - out.psqt == gap,
        split.psqt - split.positional == wider || split.positional - split.psqt == wider,
    ensures
        damped(out) >= 0 ==> 0 <= damped(split) <= damped(out),
        damped(out) <= 0 ==> damped(out) <= damped(split) <= 0,
        gap == 0 ==> damped(out) == out.psqt + out.positional,
        out.psqt + out.positional >= 0 ==> 0 <= damped(out) <= out.psqt + out.positional,
        out.psqt + out.positional <= 0 ==> out.psqt + out.positional <= damped(out) <= 0,
{
    let r = out.psqt + out.positional;
    let x = r * gap;
    let y = r * wider;
    if r >= 0 {
        assert(0 <= x <= y <= 18236 * r) by (nonlinear_arith)
            requires
                x == r * gap,
                y == r * wider,
                r >= 0,
                0 <= gap <= wider <= 18236,
        ;
    } else {
        assert(18236 * r <= y <= x <= 0) by (nonlinear_arith)
            requires
                x == r * gap,
                y == r * wider,
                r < 0,
                0 <= gap <= wider <= 18236,
        ;
    }
    assert(gap == 0 ==> x == 0) by (nonlinear_arith)
        requires
            x == r * gap,
    ;
}

/// More pawns or more pieces of either side take a score further from zero; with none of
/// either it stays as it is.
pub proof fn law_material_scales(out: NetworkOutput, meta: EvalMeta, rich: EvalMeta)
    requires
        -10000 <= out.psqt <= 10000,
        -10000 <= out.positional <= 10000,
        0 <= meta.pawns <= rich.pawns <= 16,
        0 <= meta.non_pawn_material <= rich.non_pawn_material <= 20000,
    ensures
        0 <= damped(out) ==> damped(out) <= scaled(out, meta) <= scaled(out, rich),
        damped(out) <= 0 ==> scaled(out, rich) <= scaled(out, meta) <= damped(out),
        meta.pawns == 0 && meta.non_pawn_material == 0 ==> scaled(out, meta) == damped(out),
{
    let low = EvalMeta { rule50: 0, ..meta };
    let high = EvalMeta { rule50: 0, ..rich };
    law_ordinary_scores_blend(out, low);
    law_ordinary_scores_blend(out, high);
    let raw = out.psqt + out.positional;
    let gap = if out.psqt >= out.positional {
        out.psqt - out.positional
    } else {
        out.positional - out.psqt
    };
    assert(-400000000 <= raw * gap <= 400000000) by (nonlinear_arith)
        requires
            -20000 <= raw <= 20000,
            0 <= gap <= 20000,
    ;
    let v = damped(out);
    let m = material_of(meta);
    let n = material_of(rich);
    let x = v * m;
    let y = v * n;
    assert(v >= 0 ==> 0 <= x <= y) by (nonlinear_arith)
        requires
            x == v * m,
            y == v * n,
            0 <= m <= n,
    ;
    assert(v <= 0 ==> y <= x <= 0) by (nonlinear_arith)
        requires
            x == v * m,
            y == v * n,
            0 <= m <= n,
    ;
    assert(-1200000000 <= x <= 1200000000 && -1200000000 <= y <= 1200000000) by (nonlinear_arith)
        requires
            x == v * m,
            y == v * n,
            -41935 <= v <= 41935,
            0 <= m <= n <= 28544,
    ;
    assert(m == 0 ==> x == 0) by (nonlinear_arith)
        requires
            x == v * m,
    ;
}

/// A piece that is put on an empty square counts once: as a piece, as a pawn if it is one, and
/// by its value otherwise, whichever side it is of.
pub proof fn law_pieces_are_told(sq: Seq<u8>, stm: Color, rule50: u32, s: int, code: u8)
    requires
        board::valid_squares(sq),
        0 <= s < 64,
        sq[s] == 0,
        crate::nnue::types::is_piece(code as int),
    ensures
        ({
            let before = meta_of(sq, stm, rule50);
            let after = meta_of(sq.update(s, code), stm, rule50);
            let kind = code as int % 8;
            &&& after.piece_count == before.piece_count + 1
            &&& after.pawns == before.pawns + (if kind == 1 {
                1int
            } else {
                0
            })
            &&& after.non_pawn_material == before.non_pawn_material + (if kind == 2 {
                781int
            } else if kind == 3 {
                825
            } else if kind == 4 {
                1276
            } else if kind == 5 {
                2538
            } else {
                0
            })
            &&& after.stm == stm
            &&& after.rule50 == rule50
        }),
{
    board::lemma_tally(sq, |v: u8| v != 0, s, code);
    board::lemma_tally(sq, |v: u8| v == 1 || v == 9, s, code);
    board::lemma_tally(sq.update(s, code), |v: u8| v != 0, s, code);
    board::lemma_tally(sq.update(s, code), |v: u8| v == 1 || v == 9, s, code);
    lemma_told(sq, s, code, 2);
    lemma_told(sq, s, code, 3);
    lemma_told(sq, s, code, 4);
    lemma_told(sq, s, code, 5);
    lemma_told(sq, s, code, 10);
    lemma_told(sq, s, code, 11);
    lemma_told(sq, s, code, 12);
    lemma_told(sq, s, code, 13);
}

proof fn lemma_told(sq: Seq<u8>, s: int, code: u8, k: int)
    requires
        sq.len() == 64,
        0 <= s < 64,
        sq[s] == 0,
        k > 0,
    ensures
        board::count_of(sq.update(s, code), k) == board::count_of(sq, k) + (if code == k {
            1int
        } else {
            0
        }),
        board::count_of(sq, k) <= 64,
        board::count_of(sq.update(s, code), k) <= 64,
{
    board::lemma_tally(sq, board::is_code(k), s, code);
    board::lemma_tally(sq.update(s, code), board::is_code(k), s, code);
}

/// What is scored is the position itself: its side to move and its counter of quiet plies,
/// by the head for its number of pieces.
pub proof fn law_the_position_is_told(net: &Network, pos: &Position, acc: &Accumulator)
    ensures
        told(net, pos, acc).0.stm == pos.facts_spec().turn,
        told(net, pos, acc).0.rule50 == pos.facts_spec().halfmoves,
        told(net, pos, acc).1 == accumulator::outputs(
            net,
            acc,
            pos.facts_spec().turn,
            bucket_of(told(net, pos, acc).0.piece_count as int),
        ),
{
}

/// `r` is `x / d`, rounded towards zero.
pub open spec fn cut_off(r: int, x: int, d: int) -> bool {
    &&& x >= 0 ==> 0 <= x - d * r < d
    &&& x <= 0 ==> -d < x - d * r <= 0
}

/// What the steps of the final score take away or add, by numbers: a disagreement of 18236
/// takes away all of the sum, a pawn adds 534 parts in 91000 and a piece as many as its value, and
/// 199 quiet plies take away all of the score.
pub proof fn law_blend_by_numbers(out: NetworkOutput, meta: EvalMeta)
    requires
        -10000 <= out.psqt <= 10000,
        -10000 <= out.positional <= 10000,
        0 <= meta.pawns <= 16,
        0 <= meta.non_pawn_material <= 20000,
        meta.rule50 <= 199,
    ensures
        ({
            let sum = out.psqt + out.positional;
            let more = 534 * meta.pawns + meta.non_pawn_material;
            let v = damped(out);
            let s = scaled(out, meta);
            let r = blended(out, meta);
            &&& out.psqt >= out.positional ==> cut_off(
                sum - v,
                sum * (out.psqt - out.positional),
                18236,
            )
            &&& out.psqt <= out.positional ==> cut_off(
                sum - v,
                sum * (out.positional - out.psqt),
                18236,
            )
            &&& cut_off(s - v, v * more, 91000)
            &&& -EVAL_LIMIT < r < EVAL_LIMIT ==> cut_off(s - r, s * meta.rule50, 199)
            &&& r == EVAL_LIMIT ==> s >= EVAL_LIMIT
            &&& r == -EVAL_LIMIT ==> s <= -EVAL_LIMIT
        }),
{
    law_ordinary_scores_blend(out, meta);
    let raw = out.psqt + out.positional;
    let gap = if out.psqt >= out.positional {
        out.psqt - out.positional
    } else {
        out.positional - out.psqt
    };
    assert(-400000000 <= raw * gap <= 400000000) by (nonlinear_arith)
        requires
            -20000 <= raw <= 20000,
            0 <= gap <= 20000,
    ;
    let v = damped(out);
    let m = material_of(meta);
    assert(-1200000000 <= v * m <= 1200000000) by (nonlinear_arith)
        requires
            -41935 <= v <= 41935,
            0 <= m <= 28544,
    ;
    let s = scaled(out, meta);
    let q = meta.rule50 as int;
    let x = s * q;
    assert((s >= 0 ==> 0 <= x <= 199 * s) && (s <= 0 ==> 199 * s <= x <= 0)) by (nonlinear_arith)
        requires
            x == s * q,
            0 <= q <= 199,
    ;
}

} // verus!
