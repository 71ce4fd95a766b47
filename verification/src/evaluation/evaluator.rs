//! The evaluation of a position: the sum of the terms, blended by the phase.
use vstd::prelude::*;
use crate::board::rules;
use crate::board::{Placement, Position};
use crate::evaluation;
use crate::evaluation::activity;
use crate::evaluation::king;
use crate::evaluation::material;
use crate::evaluation::mobility;
use crate::evaluation::params;
use crate::evaluation::params::EvalParams;
use crate::evaluation::passed_pawns;
use crate::evaluation::passed_pawns::PassedInfo;
use crate::evaluation::pawns;
use crate::evaluation::pawns::PawnInfo;
use crate::evaluation::phase;
use crate::evaluation::pieces;
use crate::evaluation::threats;
use crate::evaluation::{tapered, tapered_at, Score};
use crate::bits;
use crate::nnue::types::Color;
use crate::text;

verus! {

// --- the terms of a board -------------------------------------------------------------------

/// What the pawns of a board tell.
pub open spec fn pawns_on(b: Placement) -> PawnInfo {
    choose|i: PawnInfo| i.describes(b)
}

/// The passed pawns of a board.
pub open spec fn passed_on(b: Placement) -> PassedInfo {
    choose|i: PassedInfo| i.describes(pawns_on(b))
}

/// There is one account of the pawns of a board.
pub proof fn lemma_pawns_on(b: Placement, i: PawnInfo)
    requires
        i.describes(b),
    ensures
        i == pawns_on(b),
{
    let j = pawns_on(b);
    assert(j.describes(b));
    bits::lemma_ext(i.hits(Color::White), j.hits(Color::White));
    bits::lemma_ext(i.hits(Color::Black), j.hits(Color::Black));
    assert forall|f: int| 0 <= f < 64 implies #[trigger] bits::mem(i.white_files as u64, f) == bits::mem(
        j.white_files as u64,
        f,
    ) by {
        assert(pawns::on(i.files(Color::White), f) == pawns::on(j.files(Color::White), f));
    }
    bits::lemma_ext(i.white_files as u64, j.white_files as u64);
    assert forall|f: int| 0 <= f < 64 implies #[trigger] bits::mem(i.black_files as u64, f) == bits::mem(
        j.black_files as u64,
        f,
    ) by {
        assert(pawns::on(i.files(Color::Black), f) == pawns::on(j.files(Color::Black), f));
    }
    bits::lemma_ext(i.black_files as u64, j.black_files as u64);
}

/// There is one account of the passed pawns of a board.
pub proof fn lemma_passed_on(b: Placement, i: PassedInfo)
    requires
        i.describes(pawns_on(b)),
    ensures
        i == passed_on(b),
{
    let j = passed_on(b);
    assert(j.describes(pawns_on(b)));
    bits::lemma_ext(i.set(Color::White), j.set(Color::White));
    bits::lemma_ext(i.set(Color::Black), j.set(Color::Black));
}

/// What a side has of the `k`-th term: material, squares, pawn structure,
/// mobility, king safety, piece activity, passed pawns, space, threats. Space is
/// not counted by side.
pub open spec fn share(b: Placement, p: EvalParams, c: Color, k: int, f: int) -> int {
    if k == 0 {
        material::half(b, c, p, f)
    } else if k == 1 {
        pieces::half(b, c, p, f)
    } else if k == 2 {
        pawns::half(pawns_on(b), c, p, f)
    } else if k == 3 {
        mobility::half(b, pawns_on(b), c, p, f)
    } else if k == 4 {
        king::half(b, pawns_on(b), c, p, f)
    } else if k == 5 {
        activity::half(b, pawns_on(b), passed_on(b), c, phase::phase_of(b, p), p, f)
    } else if k == 6 {
        passed_pawns::half(b, pawns_on(b), passed_on(b), c, p, f)
    } else if k == 8 {
        threats::half(b, pawns_on(b), c, p, f) + threats::rook_half(b, pawns_on(b), c, p, f)
    } else {
        0
    }
}

/// What the `k`-th term of a board is.
pub open spec fn term(b: Placement, p: EvalParams, k: int, f: int) -> int {
    if k == 7 {
        threats::space(
            pawns_on(b),
            if f == 0 {
                p.space_mg as int
            } else {
                p.space_eg as int
            },
        )
    } else {
        share(b, p, Color::White, k, f) - share(b, p, Color::Black, k, f)
    }
}

/// The sum of the first `n` terms of a board.
pub open spec fn terms(b: Placement, p: EvalParams, n: int, f: int) -> int
    decreases n,
{
    if n <= 0 {
        0
    } else {
        terms(b, p, n - 1, f) + term(b, p, n - 1, f)
    }
}

/// The sum of all terms of a board.
pub open spec fn total(b: Placement, p: EvalParams, f: int) -> int {
    terms(b, p, 9, f)
}

/// What a board is worth to White.
pub open spec fn worth(b: Placement, p: EvalParams) -> int {
    evaluation::blend_at(
        total(b, p, 0),
        total(b, p, 1),
        phase::phase_of(b, p),
        p.phase_max as int,
    )
}

/// What a board is worth to the side to move; nothing where neither side can win.
pub open spec fn scored(value: int, bare: bool, turn: Color) -> int {
    if bare {
        0
    } else if turn == Color::Black {
        -value
    } else {
        value
    }
}

/// How much of each term a side can have, in sizes of a parameter.
spec fn most(k: int) -> int {
    if k == 0 {
        81
    } else if k == 1 {
        96
    } else if k == 2 {
        88
    } else if k == 3 {
        1024
    } else if k == 4 {
        900
    } else if k == 5 {
        1410
    } else if k == 6 {
        52
    } else if k == 8 {
        172
    } else {
        1
    }
}

proof fn lemma_share(b: Placement, p: EvalParams, c: Color, k: int, f: int)
    requires
        b.wf(),
        p.wf(),
        0 <= f < 2,
        pawns_on(b).describes(b),
        passed_on(b).describes(pawns_on(b)),
    ensures
        -(most(k) * 4096) <= share(b, p, c, k, f) <= most(k) * 4096,
{
    let info = pawns_on(b);
    let passed = passed_on(b);
    if k == 0 {
        material::lemma_size(b, c, p, f);
    } else if k == 1 {
        pieces::lemma_size(b, c, p, f);
    } else if k == 2 {
        pawns::lemma_size(b, info, c, p, f);
    } else if k == 3 {
        mobility::lemma_size(b, info, c, p, f);
    } else if k == 4 {
        king::lemma_size(b, info, c, p, f);
    } else if k == 5 {
        activity::lemma_size(b, info, passed, c, phase::phase_of(b, p), p, f);
    } else if k == 6 {
        passed_pawns::lemma_size(b, info, passed, c, p, f);
    } else if k == 8 {
        threats::lemma_size(b, info, c, p, f);
        threats::lemma_rook_size(b, info, c, p, f);
    }
}

/// The size of a term.
proof fn lemma_term(b: Placement, p: EvalParams, k: int, f: int)
    requires
        b.wf(),
        p.wf(),
        0 <= k < 9,
        0 <= f < 2,
        pawns_on(b).describes(b),
        passed_on(b).describes(pawns_on(b)),
    ensures
        -(2 * most(k) * 4096) <= term(b, p, k, f) <= 2 * most(k) * 4096,
{
    lemma_share(b, p, Color::White, k, f);
    lemma_share(b, p, Color::Black, k, f);
}

/// A score holds the first `n` terms of a board, and they are not too large.
spec fn holds(s: Score, b: Placement, p: EvalParams, n: int) -> bool {
    &&& s.mg == terms(b, p, n, 0)
    &&& s.eg == terms(b, p, n, 1)
    &&& -31400000 <= s.mg <= 31400000
    &&& -31400000 <= s.eg <= 31400000
}

/// The sums of the terms, and the sizes of the terms.
proof fn lemma_terms(b: Placement, p: EvalParams, f: int)
    requires
        b.wf(),
        p.wf(),
        0 <= f < 2,
        pawns_on(b).describes(b),
        passed_on(b).describes(pawns_on(b)),
    ensures
        terms(b, p, 1, f) == term(b, p, 0, f),
        terms(b, p, 2, f) == terms(b, p, 1, f) + term(b, p, 1, f),
        terms(b, p, 3, f) == terms(b, p, 2, f) + term(b, p, 2, f),
        terms(b, p, 4, f) == terms(b, p, 3, f) + term(b, p, 3, f),
        terms(b, p, 5, f) == terms(b, p, 4, f) + term(b, p, 4, f),
        terms(b, p, 6, f) == terms(b, p, 5, f) + term(b, p, 5, f),
        terms(b, p, 7, f) == terms(b, p, 6, f) + term(b, p, 6, f),
        terms(b, p, 8, f) == terms(b, p, 7, f) + term(b, p, 7, f),
        terms(b, p, 9, f) == terms(b, p, 8, f) + term(b, p, 8, f),
        forall|k: int|
            0 <= k < 9 ==> -(2 * most(k) * 4096) <= #[trigger] term(b, p, k, f) <= 2 * most(k)
                * 4096,
{
    assert(terms(b, p, 0, f) == 0);
    assert forall|k: int| 0 <= k < 9 implies -(2 * most(k) * 4096) <= #[trigger] term(b, p, k, f)
        <= 2 * most(k) * 4096 by {
        lemma_term(b, p, k, f);
    }
}

// --- the parts of an evaluation -------------------------------------------------------------

/// The terms of one evaluation, from White's side, and what they come to.
#[derive(Clone, Copy, Debug)]
pub struct EvalParts {
    /// Pieces and the pair of bishops.
    pub material: Score,
    /// The squares that the pieces stand on.
    pub pst: Score,
    /// The pawn structure.
    pub pawn: Score,
    pub mobility: Score,
    /// King safety.
    pub king: Score,
    /// The activity of the pieces.
    pub pieces: Score,
    /// Passed pawns.
    pub passed: Score,
    pub space: Score,
    /// Threats, and rooks on open files and on the seventh rank.
    pub threats: Score,
    /// The phase of the game.
    pub phase: i32,
    /// The sum of the terms in the midgame.
    pub total_mg: i32,
    /// The sum of the terms in the endgame.
    pub total_eg: i32,
    /// The value for the side to move.
    pub final_score: i32,
}

impl Default for EvalParts {
    fn default() -> (r: Self)
        ensures
            forall|k: int| 0 <= k < 9 ==> #[trigger] r.component(k) == (Score { mg: 0, eg: 0 }),
            r.phase == 0,
            r.total_mg == 0,
            r.total_eg == 0,
            r.final_score == 0,
    {
        let z: Score = Score::zero();
        EvalParts {
            material: z,
            pst: z,
            pawn: z,
            mobility: z,
            king: z,
            pieces: z,
            passed: z,
            space: z,
            threats: z,
            phase: 0,
            total_mg: 0,
            total_eg: 0,
            final_score: 0,
        }
    }
}

impl EvalParts {
    /// The `k`-th term.
    pub open spec fn component(self, k: int) -> Score {
        if k == 0 {
            self.material
        } else if k == 1 {
            self.pst
        } else if k == 2 {
            self.pawn
        } else if k == 3 {
            self.mobility
        } else if k == 4 {
            self.king
        } else if k == 5 {
            self.pieces
        } else if k == 6 {
            self.passed
        } else if k == 7 {
            self.space
        } else {
            self.threats
        }
    }

    /// The sum of the first `n` terms.
    pub open spec fn sum(self, n: int, f: int) -> int
        decreases n,
    {
        if n <= 0 {
            0
        } else {
            self.sum(n - 1, f) + (if f == 0 {
                self.component(n - 1).mg
            } else {
                self.component(n - 1).eg
            })
        }
    }

    /// A term blended at the phase.
    pub open spec fn part(self, k: int) -> int {
        evaluation::blend_at(
            self.component(k).mg as int,
            self.component(k).eg as int,
            self.phase as int,
            24,
        )
    }

    /// The terms can be added up and blended at the phase.
    pub open spec fn manageable(self) -> bool {
        &&& forall|n: int|
            1 <= n <= 9 ==> evaluation::fits(#[trigger] self.sum(n, 0)) && evaluation::fits(
                self.sum(n, 1),
            )
        &&& forall|k: int|
            0 <= k < 9 ==> evaluation::blendable(
                (#[trigger] self.component(k)).mg as int,
                self.component(k).eg as int,
                self.phase as int,
                24,
            )
    }

    /// A score blended at the phase.
    pub fn blended(&self, s: Score) -> (r: i32)
        requires
            evaluation::blendable(s.mg as int, s.eg as int, self.phase as int, 24),
        ensures
            r == evaluation::blend_at(s.mg as int, s.eg as int, self.phase as int, 24),
    {
        tapered(s, self.phase)
    }

    /// The sum of the terms.
    pub fn total(&self) -> (r: Score)
        requires
            forall|n: int|
                1 <= n <= 9 ==> evaluation::fits(#[trigger] self.sum(n, 0)) && evaluation::fits(
                    self.sum(n, 1),
                ),
        ensures
            r.mg == self.sum(9, 0),
            r.eg == self.sum(9, 1),
    {
        proof {
            self.lemma_sums(0);
            self.lemma_sums(1);
            assert(evaluation::fits(self.sum(2, 0)) && evaluation::fits(self.sum(3, 0)));
            assert(evaluation::fits(self.sum(4, 0)) && evaluation::fits(self.sum(5, 0)));
            assert(evaluation::fits(self.sum(6, 0)) && evaluation::fits(self.sum(7, 0)));
            assert(evaluation::fits(self.sum(8, 0)) && evaluation::fits(self.sum(9, 0)));
        }
        self.material + self.pst + self.pawn + self.mobility + self.king + self.pieces + self.passed
            + self.space + self.threats
    }

    proof fn lemma_sums(self, f: int)
        requires
            0 <= f < 2,
        ensures
            self.sum(1, f) == self.value(0, f),
            self.sum(2, f) == self.sum(1, f) + self.value(1, f),
            self.sum(3, f) == self.sum(2, f) + self.value(2, f),
            self.sum(4, f) == self.sum(3, f) + self.value(3, f),
            self.sum(5, f) == self.sum(4, f) + self.value(4, f),
            self.sum(6, f) == self.sum(5, f) + self.value(5, f),
            self.sum(7, f) == self.sum(6, f) + self.value(6, f),
            self.sum(8, f) == self.sum(7, f) + self.value(7, f),
            self.sum(9, f) == self.sum(8, f) + self.value(8, f),
    {
        assert(self.sum(0, f) == 0);
    }

    spec fn value(self, k: int, f: int) -> int {
        if f == 0 {
            self.component(k).mg as int
        } else {
            self.component(k).eg as int
        }
    }

    /// One line with the totals, the blended terms, the phase and the value.
    pub fn stats_row(&self) -> (r: String)
        requires
            forall|k: int|
                0 <= k < 9 ==> evaluation::blendable(
                    (#[trigger] self.component(k)).mg as int,
                    self.component(k).eg as int,
                    self.phase as int,
                    24,
                ),
        ensures
            r@ == "mg "@ + text::signed(self.total_mg as int) + " eg "@ + text::signed(
                self.total_eg as int,
            ) + " material "@ + text::signed(self.part(0)) + " pst "@ + text::signed(self.part(1))
                + " pawn "@ + text::signed(self.part(2)) + " mobility "@ + text::signed(
                self.part(3),
            ) + " king "@ + text::signed(self.part(4)) + " pieces "@ + text::signed(self.part(5))
                + " passed "@ + text::signed(self.part(6)) + " space "@ + text::signed(self.part(7))
                + " threats "@ + text::signed(self.part(8)) + " phase "@ + text::signed(
                self.phase as int,
            ) + " final "@ + text::signed(self.final_score as int),
    {
        let mut out: String = "mg ".to_owned();
        text::append_signed(&mut out, self.total_mg as i64);
        put(&mut out, " eg ", self.total_eg);
        proof {
            assert(self.component(0) == self.material && self.component(1) == self.pst);
            assert(self.component(2) == self.pawn && self.component(3) == self.mobility);
            assert(self.component(4) == self.king && self.component(5) == self.pieces);
            assert(self.component(6) == self.passed && self.component(7) == self.space);
            assert(self.component(8) == self.threats);
        }
        put(&mut out, " material ", self.blended(self.material));
        put(&mut out, " pst ", self.blended(self.pst));
        put(&mut out, " pawn ", self.blended(self.pawn));
        put(&mut out, " mobility ", self.blended(self.mobility));
        put(&mut out, " king ", self.blended(self.king));
        put(&mut out, " pieces ", self.blended(self.pieces));
        put(&mut out, " passed ", self.blended(self.passed));
        put(&mut out, " space ", self.blended(self.space));
        put(&mut out, " threats ", self.blended(self.threats));
        put(&mut out, " phase ", self.phase);
        put(&mut out, " final ", self.final_score);
        out
    }
}

/// Appends a name and a number.
fn put(out: &mut String, name: &str, n: i32)
    ensures
        final(out)@ == old(out)@ + name@ + text::signed(n as int),
{
    out.append(name);
    text::append_signed(out, n as i64);
}

// --- the evaluation ---------------------------------------------------------------------------

/// What a value is to the side to move.
pub fn settled(value: i32, bare: bool, turn: Color) -> (r: i32)
    requires
        value != i32::MIN,
    ensures
        r == scored(value as int, bare, turn),
{
    if bare {
        0
    } else if turn == Color::Black {
        -value
    } else {
        value
    }
}

/// Evaluates positions.
#[derive(Clone, Copy, Debug)]
pub struct Evaluator;

impl Default for Evaluator {
    fn default() -> (r: Self)
        ensures
            r == Evaluator,
    {
        Evaluator
    }
}

impl Evaluator {
    /// What a position is worth to the side to move, in centipawns.
    pub fn evaluate(&self, pos: &Position) -> (r: i32)
        ensures
            forall|p: EvalParams|
                params::is_baseline(p) ==> r == scored(
                    #[trigger] worth(pos.board_spec(), p),
                    rules::bare(pos.board_spec()),
                    pos.facts_spec().turn,
                ),
    {
        self.evaluate_parts(pos).final_score
    }

    /// What a position is worth to the side to move by the parameters `p`.
    pub fn evaluate_with(&self, pos: &Position, p: &EvalParams) -> (r: i32)
        requires
            p.wf(),
        ensures
            r == scored(
                worth(pos.board_spec(), *p),
                rules::bare(pos.board_spec()),
                pos.facts_spec().turn,
            ),
    {
        self.evaluate_parts_with(pos, p).final_score
    }

    /// What a position is worth to White by the parameters `p`.
    pub fn evaluate_white_with(&self, pos: &Position, p: &EvalParams) -> (r: i32)
        requires
            p.wf(),
        ensures
            r == worth(pos.board_spec(), *p),
    {
        let parts: EvalParts = self.evaluate_parts_with(pos, p);
        tapered_at(Score::new(parts.total_mg, parts.total_eg), parts.phase, p.phase_max)
    }

    /// The terms of a position.
    pub fn evaluate_parts(&self, pos: &Position) -> (r: EvalParts)
        ensures
            forall|p: EvalParams| #[trigger]
                params::is_baseline(p) ==> reported(r, pos.board_spec(), p, pos.facts_spec().turn),
            r.manageable(),
    {
        let p: EvalParams = EvalParams::default();
        proof {
            params::law_baseline_is_usable(p);
        }
        let r: EvalParts = self.evaluate_parts_with(pos, &p);
        proof {
            assert forall|q: EvalParams| #[trigger] params::is_baseline(q) implies reported(
                r,
                pos.board_spec(),
                q,
                pos.facts_spec().turn,
            ) by {
                params::law_one_baseline(p, q);
            }
        }
        r
    }

    /// The terms of a position by the parameters `p`.
    pub fn evaluate_parts_with(&self, pos: &Position, p: &EvalParams) -> (r: EvalParts)
        requires
            p.wf(),
        ensures
            reported(r, pos.board_spec(), *p, pos.facts_spec().turn),
            r.manageable(),
            evaluation::blendable(
                r.total_mg as int,
                r.total_eg as int,
                r.phase as int,
                p.phase_max as int,
            ),
    {
        let board: &Placement = pos.board();
        let phase: i32 = phase::game_phase(board, p);
        let info: PawnInfo = PawnInfo::scan(board);
        let gone: PassedInfo = PassedInfo::scan(&info);
        proof {
            lemma_pawns_on(*board, info);
            lemma_passed_on(*board, gone);
            lemma_terms(*board, *p, 0);
            lemma_terms(*board, *p, 1);
        }
        let material: Score = material::evaluate_material(board, p);
        let pst: Score = pieces::evaluate_pst(board, p);
        let pawn: Score = pawns::evaluate_pawns(&info, p);
        let mobility: Score = mobility::evaluate_mobility(board, &info, p);
        let king: Score = king::evaluate_king_safety(board, &info, p);
        let pieces: Score = activity::evaluate_pieces(board, &info, &gone, phase, p);
        let passed: Score = passed_pawns::evaluate_passed(board, &info, &gone, p);
        let space: Score = threats::evaluate_space(board, &info, p);
        let threats: Score = threats::evaluate_threats(board, &info, p) + threats::evaluate_rooks(
            board,
            &info,
            p,
        );
        proof {
            assert(material.mg == term(*board, *p, 0, 0) && material.eg == term(*board, *p, 0, 1));
            assert(pst.mg == term(*board, *p, 1, 0) && pst.eg == term(*board, *p, 1, 1));
            assert(pawn.mg == term(*board, *p, 2, 0) && pawn.eg == term(*board, *p, 2, 1));
            assert(mobility.mg == term(*board, *p, 3, 0) && mobility.eg == term(*board, *p, 3, 1));
            assert(king.mg == term(*board, *p, 4, 0) && king.eg == term(*board, *p, 4, 1));
            assert(pieces.mg == term(*board, *p, 5, 0) && pieces.eg == term(*board, *p, 5, 1));
            assert(passed.mg == term(*board, *p, 6, 0) && passed.eg == term(*board, *p, 6, 1));
            assert(space.mg == term(*board, *p, 7, 0) && space.eg == term(*board, *p, 7, 1));
            assert(threats.mg == term(*board, *p, 8, 0) && threats.eg == term(*board, *p, 8, 1));
        }
        let total: Score = material + pst + pawn + mobility + king + pieces + passed + space
            + threats;
        proof {
            assert(holds(total, *board, *p, 9));
            lemma_blendable(
                total.mg as int,
                total.eg as int,
                phase as int,
                p.phase_max as int,
            );
        }
        let value: i32 = tapered_at(total, phase, p.phase_max);
        let final_score: i32 = settled(value, pos.is_insufficient_material(), pos.turn());
        let parts: EvalParts = EvalParts {
            material,
            pst,
            pawn,
            mobility,
            king,
            pieces,
            passed,
            space,
            threats,
            phase,
            total_mg: total.mg,
            total_eg: total.eg,
            final_score,
        };
        proof {
            assert forall|k: int| 0 <= k < 9 implies (#[trigger] parts.component(k)).mg == term(
                *board,
                *p,
                k,
                0,
            ) && parts.component(k).eg == term(*board, *p, k, 1) by {}
            lemma_manageable(parts, *board, *p);
        }
        parts
    }
}

/// Parts of the size that boards have can be added up and blended.
proof fn lemma_manageable(r: EvalParts, b: Placement, p: EvalParams)
    requires
        b.wf(),
        p.wf(),
        pawns_on(b).describes(b),
        passed_on(b).describes(pawns_on(b)),
        0 <= r.phase <= 32,
        forall|k: int|
            0 <= k < 9 ==> (#[trigger] r.component(k)).mg == term(b, p, k, 0) && r.component(k).eg
                == term(b, p, k, 1),
    ensures
        r.manageable(),
{
    lemma_terms(b, p, 0);
    lemma_terms(b, p, 1);
    r.lemma_sums(0);
    r.lemma_sums(1);
    assert forall|k: int| 0 <= k < 9 implies evaluation::blendable(
        (#[trigger] r.component(k)).mg as int,
        r.component(k).eg as int,
        r.phase as int,
        24,
    ) by {
        assert(-(2 * most(k) * 4096) <= term(b, p, k, 0) <= 2 * most(k) * 4096);
        assert(-(2 * most(k) * 4096) <= term(b, p, k, 1) <= 2 * most(k) * 4096);
        let mg = r.component(k).mg as int;
        let eg = r.component(k).eg as int;
        let n = r.phase as int;
        assert(-384000000 <= mg * n <= 384000000) by (nonlinear_arith)
            requires
                -12000000 <= mg <= 12000000,
                0 <= n <= 32,
        ;
        assert(-384000000 <= eg * (24 - n) <= 384000000) by (nonlinear_arith)
            requires
                -12000000 <= eg <= 12000000,
                0 <= n <= 32,
        ;
    }
    assert forall|n: int| 1 <= n <= 9 implies evaluation::fits(#[trigger] r.sum(n, 0))
        && evaluation::fits(r.sum(n, 1)) by {
        assert(n == 1 || n == 2 || n == 3 || n == 4 || n == 5 || n == 6 || n == 7 || n == 8 || n
            == 9);
        assert(r.component(0).mg == term(b, p, 0, 0) && r.component(1).mg == term(b, p, 1, 0));
        assert(r.component(2).mg == term(b, p, 2, 0) && r.component(3).mg == term(b, p, 3, 0));
        assert(r.component(4).mg == term(b, p, 4, 0) && r.component(5).mg == term(b, p, 5, 0));
        assert(r.component(6).mg == term(b, p, 6, 0) && r.component(7).mg == term(b, p, 7, 0));
        assert(r.component(8).mg == term(b, p, 8, 0));
    }
}

/// The parts are those of a board with a side to move.
pub open spec fn reported(r: EvalParts, b: Placement, p: EvalParams, turn: Color) -> bool {
    &&& forall|k: int|
        0 <= k < 9 ==> (#[trigger] r.component(k)).mg == term(b, p, k, 0) && r.component(k).eg
            == term(b, p, k, 1)
    &&& r.phase == phase::phase_of(b, p)
    &&& r.total_mg == total(b, p, 0)
    &&& r.total_eg == total(b, p, 1)
    &&& r.final_score == scored(worth(b, p), rules::bare(b), turn)
}

/// Totals of the size that boards have can be blended.
proof fn lemma_blendable(mg: int, eg: int, phase: int, max: int)
    requires
        -31400000 <= mg <= 31400000,
        -31400000 <= eg <= 31400000,
        0 <= phase <= max <= 32,
    ensures
        evaluation::blendable(mg, eg, phase, max),
        -2000000000 <= evaluation::blend_at(mg, eg, phase, max) <= 2000000000,
{
    let m = if max < 1 {
        1
    } else {
        max
    };
    let x = mg * phase;
    let y = eg * (m - phase);
    assert(-31400000 * phase <= x <= 31400000 * phase) by (nonlinear_arith)
        requires
            -31400000 <= mg <= 31400000,
            0 <= phase,
            x == mg * phase,
    ;
    assert(-31400000 * (m - phase) <= y <= 31400000 * (m - phase)) by (nonlinear_arith)
        requires
            -31400000 <= eg <= 31400000,
            0 <= m - phase,
            y == eg * (m - phase),
    ;
    let z = x + y;
    if z >= 0 {
        vstd::arithmetic::div_mod::lemma_div_is_ordered_by_denominator(z, 1, m);
        vstd::arithmetic::div_mod::lemma_div_pos_is_pos(z, m);
    } else {
        vstd::arithmetic::div_mod::lemma_div_is_ordered_by_denominator(-z, 1, m);
        vstd::arithmetic::div_mod::lemma_div_pos_is_pos(-z, m);
    }
}

} // verus!
