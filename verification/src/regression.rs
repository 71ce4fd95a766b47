//! Guards against a change for the worse: positions that must stay solved, and
//! matches that are compared.
use vstd::prelude::*;
use crate::board::Position;
use crate::board::rules;
use crate::evaluation::{EvalParams, Evaluator};
use crate::evaluation::evaluator;
use crate::text;

verus! {

// --- positions ------------------------------------------------------------------------------------

/// A position with a move that must be found.
#[derive(Debug, Clone, Copy)]
pub struct TacticCase {
    pub name: &'static str,
    pub fen: &'static str,
    /// How deep the search goes.
    pub depth: i32,
    /// The move that must be found.
    pub expect_best: &'static str,
}

/// The positions with moves that must be found.
pub fn tactic_cases() -> (r: [TacticCase; 2])
    ensures
        r@[0].name@ == "mate-in-two"@,
        r@[0].fen@ == "1r4k1/5ppp/8/8/8/8/3R1PPP/3R3K w - - 0 1"@,
        r@[0].depth == 4,
        r@[0].expect_best@ == "d2d8"@,
        r@[1].name@ == "hanging-queen"@,
        r@[1].fen@ == "6k1/8/8/8/8/8/5q2/5Q1K w - - 0 1"@,
        r@[1].depth == 3,
        r@[1].expect_best@ == "f1f2"@,
{
    [
        TacticCase {
            name: "mate-in-two",
            fen: "1r4k1/5ppp/8/8/8/8/3R1PPP/3R3K w - - 0 1",
            depth: 4,
            expect_best: "d2d8",
        },
        TacticCase {
            name: "hanging-queen",
            fen: "6k1/8/8/8/8/8/5q2/5Q1K w - - 0 1",
            depth: 3,
            expect_best: "f1f2",
        },
    ]
}

/// The positions of the benchmark, with their names.
pub fn bench_positions() -> (r: [(&'static str, &'static str); 4])
    ensures
        r@[0].0@ == "startpos"@,
        r@[0].1@ == "rnbqkbnr/pppppppp/8/8/8/8/PPPPPPPP/RNBQKBNR w KQkq - 0 1"@,
        r@[1].0@ == "kiwipete"@,
        r@[1].1@ == "r3k2r/p1ppqpb1/bn2pnp1/3PN3/1p2P3/2N2Q1p/PPPBBPPP/R3K2R w KQkq - 0 1"@,
        r@[2].0@ == "middlegame"@,
        r@[2].1@ == "r1bq1rk1/ppp2ppp/2np1n2/2b1p3/2B1P3/2NP1N2/PPP2PPP/R1BQR1K1 w - - 0 8"@,
        r@[3].0@ == "endgame"@,
        r@[3].1@ == "8/8/4k3/3pN3/3P4/8/4K3/8 w - - 0 1"@,
{
    [
        ("startpos", "rnbqkbnr/pppppppp/8/8/8/8/PPPPPPPP/RNBQKBNR w KQkq - 0 1"),
        ("kiwipete", "r3k2r/p1ppqpb1/bn2pnp1/3PN3/1p2P3/2N2Q1p/PPPBBPPP/R3K2R w KQkq - 0 1"),
        ("middlegame", "r1bq1rk1/ppp2ppp/2np1n2/2b1p3/2B1P3/2NP1N2/PPP2PPP/R1BQR1K1 w - - 0 8"),
        ("endgame", "8/8/4k3/3pN3/3P4/8/4K3/8 w - - 0 1"),
    ]
}

// --- searches -------------------------------------------------------------------------------------

/// The move and the number of nodes of a search.
#[derive(Debug)]
pub struct Found {
    pub best: String,
    pub nodes: u64,
}

/// What became of a case.
#[derive(Debug)]
pub struct CaseReport {
    pub name: String,
    pub fen: String,
    /// What the position is worth by the baseline.
    pub baseline_eval: i32,
    /// What it is worth by the parameters on trial.
    pub tuned_eval: i32,
    /// The move that was found.
    pub tuned_best: String,
    /// Whether it is the right one.
    pub tactic_ok: bool,
    /// Whether a second search found the same in the same way.
    pub deterministic: bool,
    /// The nodes of the two searches.
    pub nodes: (u64, u64),
}

/// What two searches of a case come to.
pub open spec fn examined(
    case: TacticCase,
    baseline: EvalParams,
    tuned: EvalParams,
    first: Found,
    second: Found,
    c: CaseReport,
) -> bool {
    let f = rules::facts_of(case.fen@)->0;
    &&& c.name@ == case.name@
    &&& c.fen@ == case.fen@
    &&& c.baseline_eval == evaluator::scored(
        evaluator::worth(f.board, baseline),
        rules::bare(f.board),
        f.turn,
    )
    &&& c.tuned_eval == evaluator::scored(
        evaluator::worth(f.board, tuned),
        rules::bare(f.board),
        f.turn,
    )
    &&& c.tuned_best@ == first.best@
    &&& c.tactic_ok == (first.best@ == case.expect_best@)
    &&& c.deterministic == (first.nodes == second.nodes && first.best@ == second.best@)
    &&& c.nodes == (first.nodes, second.nodes)
}

/// Looks at a case after two searches of it; nothing where its FEN is no position.
pub fn examine(
    case: &TacticCase,
    baseline: &EvalParams,
    tuned: &EvalParams,
    first: &Found,
    second: &Found,
) -> (r: Option<CaseReport>)
    requires
        baseline.wf(),
        tuned.wf(),
    ensures
        r is Some <==> rules::is_fen(case.fen@) && rules::is_legal_fen(case.fen@),
        r matches Some(c) ==> examined(*case, *baseline, *tuned, *first, *second, c),
{
    let pos: Position = match Position::from_fen(case.fen) {
        Ok(p) => p,
        Err(_e) => {
            return None;
        },
    };
    let evaluator: Evaluator = Evaluator;
    let baseline_eval: i32 = evaluator.evaluate_with(&pos, baseline);
    let tuned_eval: i32 = evaluator.evaluate_with(&pos, tuned);
    Some(
        CaseReport {
            name: case.name.to_owned(),
            fen: case.fen.to_owned(),
            baseline_eval,
            tuned_eval,
            tuned_best: first.best.clone(),
            tactic_ok: text::same(first.best.as_str(), case.expect_best),
            deterministic: first.nodes == second.nodes && text::same(
                first.best.as_str(),
                second.best.as_str(),
            ),
            nodes: (first.nodes, second.nodes),
        },
    )
}

/// How far the two values of a case are apart.
pub open spec fn delta(c: CaseReport) -> int {
    if c.tuned_eval >= c.baseline_eval {
        c.tuned_eval - c.baseline_eval
    } else {
        c.baseline_eval - c.tuned_eval
    }
}

/// The sum of the distances of the cases before `n`.
pub open spec fn delta_sum(cases: Seq<CaseReport>, n: int) -> int
    decreases n,
{
    if n <= 0 {
        0
    } else {
        delta_sum(cases, n - 1) + delta(cases[n - 1])
    }
}

/// What became of all cases.
#[derive(Debug, Clone, Copy, PartialEq, Eq, Structural)]
pub struct Summary {
    pub all_tactics_ok: bool,
    pub all_deterministic: bool,
    pub max_eval_delta: i64,
    /// The sum of the distances.
    pub sum_eval_delta: i128,
}

/// What became of all cases. Without cases nothing is wrong.
pub fn summarize(cases: &Vec<CaseReport>) -> (r: Summary)
    ensures
        r.all_tactics_ok == (forall|k: int| 0 <= k < cases@.len() ==> (#[trigger] cases@[k]).tactic_ok),
        r.all_deterministic == (forall|k: int|
            0 <= k < cases@.len() ==> (#[trigger] cases@[k]).deterministic),
        forall|k: int| 0 <= k < cases@.len() ==> delta(#[trigger] cases@[k]) <= r.max_eval_delta,
        cases@.len() == 0 ==> r.max_eval_delta == 0,
        cases@.len() > 0 ==> exists|k: int|
            0 <= k < cases@.len() && r.max_eval_delta == delta(#[trigger] cases@[k]),
        r.sum_eval_delta == delta_sum(cases@, cases@.len() as int),
{
    let mut tactics: bool = true;
    let mut same: bool = true;
    let mut most: i64 = 0;
    let mut sum: i128 = 0;
    let mut i: usize = 0;
    while i < cases.len()
        invariant
            i <= cases@.len(),
            tactics == (forall|k: int| 0 <= k < i ==> (#[trigger] cases@[k]).tactic_ok),
            same == (forall|k: int| 0 <= k < i ==> (#[trigger] cases@[k]).deterministic),
            forall|k: int| 0 <= k < i ==> delta(#[trigger] cases@[k]) <= most,
            i == 0 ==> most == 0,
            i > 0 ==> exists|k: int| 0 <= k < i && most == delta(#[trigger] cases@[k]),
            sum == delta_sum(cases@, i as int),
            0 <= sum <= i * 0xFFFF_FFFF,
        decreases cases@.len() - i,
    {
        let c: &CaseReport = &cases[i];
        let gap: i64 = if c.tuned_eval >= c.baseline_eval {
            c.tuned_eval as i64 - c.baseline_eval as i64
        } else {
            c.baseline_eval as i64 - c.tuned_eval as i64
        };
        assert(gap == delta(cases@[i as int]));
        if !c.tactic_ok {
            tactics = false;
        }
        if !c.deterministic {
            same = false;
        }
        if i == 0 || gap > most {
            most = gap;
        }
        sum = sum + gap as i128;
        i = i + 1;
    }
    Summary {
        all_tactics_ok: tactics,
        all_deterministic: same,
        max_eval_delta: most,
        sum_eval_delta: sum,
    }
}

/// Parameters on trial that are the baseline itself change no value.
pub proof fn law_same_parameters_no_delta(
    case: TacticCase,
    p: EvalParams,
    first: Found,
    second: Found,
    c: CaseReport,
)
    requires
        examined(case, p, p, first, second, c),
    ensures
        delta(c) == 0,
{
}

// --- matches --------------------------------------------------------------------------------------

/// What two matches must have in common for their results to be compared.
#[derive(Debug)]
pub struct Matchup {
    pub suite: String,
    pub seed: u64,
    pub time_control: String,
    pub alternate_colors: bool,
    pub candidate: String,
}

/// Two matches can be compared.
pub open spec fn alike(a: Matchup, b: Matchup) -> bool {
    &&& a.suite@ == b.suite@
    &&& a.seed == b.seed
    &&& a.time_control@ == b.time_control@
    &&& a.alternate_colors == b.alternate_colors
    &&& a.candidate@ == b.candidate@
}

/// Whether two matches can be compared.
pub fn comparable(a: &Matchup, b: &Matchup) -> (r: bool)
    ensures
        r == alike(*a, *b),
{
    text::same(a.suite.as_str(), b.suite.as_str()) && a.seed == b.seed && text::same(
        a.time_control.as_str(),
        b.time_control.as_str(),
    ) && a.alternate_colors == b.alternate_colors && text::same(
        a.candidate.as_str(),
        b.candidate.as_str(),
    )
}

/// What a comparison of two matches comes to.
#[derive(Debug, Clone, Copy, PartialEq, Eq, Structural)]
pub enum Verdict {
    /// The matches are not alike.
    Incomparable,
    /// One of them has no games.
    Insufficient,
    Improved,
    Regressed,
    /// The difference may be chance.
    Similar,
}

impl Verdict {
    /// The name of the verdict.
    pub open spec fn word(self) -> Seq<char> {
        match self {
            Verdict::Incomparable => "incomparable"@,
            Verdict::Insufficient => "insufficient"@,
            Verdict::Improved => "improved"@,
            Verdict::Regressed => "regressed"@,
            Verdict::Similar => "similar"@,
        }
    }

    /// The name of the verdict.
    pub fn label(self) -> (r: &'static str)
        ensures
            r@ == self.word(),
    {
        match self {
            Verdict::Incomparable => "incomparable",
            Verdict::Insufficient => "insufficient",
            Verdict::Improved => "improved",
            Verdict::Regressed => "regressed",
            Verdict::Similar => "similar",
        }
    }
}

/// The verdict on two matches: whether they are alike comes first, then whether
/// both have games, then whether the whole interval of the difference lies above
/// or below zero.
pub open spec fn verdict_on(alike: bool, a_games: int, b_games: int, above: bool, below: bool) -> Verdict {
    if !alike {
        Verdict::Incomparable
    } else if a_games == 0 || b_games == 0 {
        Verdict::Insufficient
    } else if above {
        Verdict::Improved
    } else if below {
        Verdict::Regressed
    } else {
        Verdict::Similar
    }
}

/// The verdict on two matches.
pub fn verdict(alike: bool, a_games: u64, b_games: u64, above: bool, below: bool) -> (r: Verdict)
    ensures
        r == verdict_on(alike, a_games as int, b_games as int, above, below),
{
    if !alike {
        Verdict::Incomparable
    } else if a_games == 0 || b_games == 0 {
        Verdict::Insufficient
    } else if above {
        Verdict::Improved
    } else if below {
        Verdict::Regressed
    } else {
        Verdict::Similar
    }
}

/// Alike matches with games are told apart by where the interval of the
/// difference lies, and matches compared the other way round give the opposite
/// verdict.
pub proof fn law_verdict_mirrors(alike: bool, a_games: int, b_games: int, above: bool, below: bool)
    requires
        !(above && below),
    ensures
        ({
            let v = verdict_on(alike, a_games, b_games, above, below);
            let w = verdict_on(alike, b_games, a_games, below, above);
            &&& v == Verdict::Improved <==> w == Verdict::Regressed
            &&& v == Verdict::Regressed <==> w == Verdict::Improved
            &&& v == Verdict::Similar <==> w == Verdict::Similar
            &&& v == Verdict::Insufficient <==> w == Verdict::Insufficient
            &&& v == Verdict::Incomparable <==> w == Verdict::Incomparable
            &&& alike && a_games > 0 && b_games > 0 ==> {
                &&& v == Verdict::Improved <==> above
                &&& v == Verdict::Regressed <==> below
                &&& v == Verdict::Similar <==> !above && !below
            }
        }),
{
}

/// Why two matches are not alike, in words.
pub open spec fn unlike_words(a: Matchup, b: Matchup) -> Seq<char> {
    "runs are not the same matchup: suite "@ + text::quoted_text(a.suite@) + " vs "@
        + text::quoted_text(b.suite@) + ", seed "@ + text::decimal(a.seed as int) + " vs "@
        + text::decimal(b.seed as int) + ", tc "@ + text::quoted_text(a.time_control@) + " vs "@
        + text::quoted_text(b.time_control@) + ", alternate "@ + text::bool_text(a.alternate_colors)
        + " vs "@ + text::bool_text(b.alternate_colors) + ", candidate "@ + text::quoted_text(
        a.candidate@,
    ) + " vs "@ + text::quoted_text(b.candidate@)
}

/// Why two matches are not alike, in words.
pub fn unlike_note(a: &Matchup, b: &Matchup) -> (r: String)
    ensures
        r@ == unlike_words(*a, *b),
        text::plainly_quoted(a.suite@) && text::plainly_quoted(b.suite@),
        text::plainly_quoted(a.time_control@) && text::plainly_quoted(b.time_control@),
        text::plainly_quoted(a.candidate@) && text::plainly_quoted(b.candidate@),
{
    let mut out: String = "runs are not the same matchup: suite ".to_owned();
    out.append(text::quoted(a.suite.as_str()).as_str());
    out.append(" vs ");
    out.append(text::quoted(b.suite.as_str()).as_str());
    out.append(", seed ");
    text::append_decimal(&mut out, a.seed);
    out.append(" vs ");
    text::append_decimal(&mut out, b.seed);
    out.append(", tc ");
    out.append(text::quoted(a.time_control.as_str()).as_str());
    out.append(" vs ");
    out.append(text::quoted(b.time_control.as_str()).as_str());
    out.append(", alternate ");
    out.append(text::bool_str(a.alternate_colors));
    out.append(" vs ");
    out.append(text::bool_str(b.alternate_colors));
    out.append(", candidate ");
    out.append(text::quoted(a.candidate.as_str()).as_str());
    out.append(" vs ");
    out.append(text::quoted(b.candidate.as_str()).as_str());
    out
}

/// How many games two matches have, in words.
pub fn games_note(a_games: u64, b_games: u64) -> (r: String)
    ensures
        r@ == "A has "@ + text::decimal(a_games as int) + " games, B has "@ + text::decimal(
            b_games as int,
        ) + " games"@,
{
    let mut out: String = "A has ".to_owned();
    text::append_decimal(&mut out, a_games);
    out.append(" games, B has ");
    text::append_decimal(&mut out, b_games);
    out.append(" games");
    out
}

/// A case is solved where the first search found the move that is expected, and its searches
/// agree where they found the same move in as many nodes. A value that is higher by the
/// parameters on trial is as far away as one that is lower by as much.
pub proof fn law_cases(
    case: TacticCase,
    baseline: EvalParams,
    tuned: EvalParams,
    first: Found,
    second: Found,
    c: CaseReport,
    d: CaseReport,
)
    requires
        examined(case, baseline, tuned, first, second, c),
        examined(case, tuned, baseline, first, second, d),
    ensures
        c.tactic_ok <==> first.best@ == case.expect_best@,
        c.deterministic <==> first.best@ == second.best@ && first.nodes == second.nodes,
        delta(c) == delta(d),
        delta(c) >= 0,
        delta(c) == c.tuned_eval - c.baseline_eval || delta(c) == c.baseline_eval - c.tuned_eval,
        c.baseline_eval == d.tuned_eval,
{
}

/// Matches are alike only where nothing that sets them differs.
pub proof fn law_alike_matches(a: Matchup, b: Matchup)
    ensures
        alike(a, b) == alike(b, a),
        a.seed != b.seed ==> !alike(a, b),
        a.suite@ != b.suite@ ==> !alike(a, b),
        a.time_control@ != b.time_control@ ==> !alike(a, b),
        a.alternate_colors != b.alternate_colors ==> !alike(a, b),
        a.candidate@ != b.candidate@ ==> !alike(a, b),
        alike(a, a),
{
}

/// One more case adds how far its values are apart.
pub proof fn law_deltas_add_up(cases: Seq<CaseReport>, c: CaseReport)
    ensures
        delta_sum(cases.push(c), cases.len() as int + 1) == delta_sum(cases, cases.len() as int)
            + delta(c),
        delta_sum(cases, 0) == 0,
{
    lemma_front(cases, c, cases.len() as int);
}

proof fn lemma_front(cases: Seq<CaseReport>, c: CaseReport, n: int)
    requires
        0 <= n <= cases.len(),
    ensures
        delta_sum(cases.push(c), n) == delta_sum(cases, n),
    decreases n,
{
    if n > 0 {
        lemma_front(cases, c, n - 1);
        assert(cases.push(c)[n - 1] == cases[n - 1]);
    }
}

} // verus!
