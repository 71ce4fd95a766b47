//! A match as a whole: which game is played next, how results are counted, and
//! when a match can be taken up again.
use vstd::prelude::*;
use crate::book;
use crate::matchplay::{
    self, candidate_result, candidate_result_std, CandidateSide, EngineSummary, MatchConfig,
    PlayedGame, StdGame,
};
use crate::openings;
use crate::rating::{GameResult, SprtDecision, Wdl};
use crate::text;

verus! {

/// A game that is to be played.
#[derive(Debug, Clone, Copy, PartialEq, Eq, Structural)]
pub struct Assignment {
    pub game_no: usize,
    pub opening_idx: usize,
    pub seed: u64,
    /// Whether the first engine has White.
    pub white_was_a: bool,
}

/// The game with a number: its opening is the next in the order, and the engines
/// change colours where that is agreed.
pub open spec fn assigned(order: Seq<usize>, seed: u64, alternate: bool, game: int) -> Assignment {
    Assignment {
        game_no: game as usize,
        opening_idx: order[game % (order.len() as int)],
        seed: book::mixed(book::advanced(seed, (game + 1) as nat)),
        white_was_a: !alternate || game % 2 == 0,
    }
}

/// The game with a number.
pub fn assign(order: &Vec<usize>, seed: u64, alternate: bool, game: usize) -> (r: Assignment)
    requires
        order@.len() > 0,
        game < u64::MAX,
    ensures
        r == assigned(order@, seed, alternate, game as int),
{
    Assignment {
        game_no: game,
        opening_idx: order[game % order.len()],
        seed: matchplay::game_seed(seed, game),
        white_was_a: !alternate || game % 2 == 0,
    }
}

/// What must be the same for a match to be taken up again.
#[derive(Debug)]
pub struct Resumed {
    pub seed: u64,
    pub suite: String,
    pub time_control: String,
    pub alternate_colors: bool,
    pub max_plies: usize,
    pub adjudicate_mate: bool,
    pub white: EngineSummary,
    pub black: EngineSummary,
    /// Whether the two tests are the same, or there is none in either.
    pub same_test: bool,
}

/// Why a match is not played.
#[derive(Debug)]
pub enum MatchError {
    /// It has no games.
    NoGames,
    /// It is not the match that is taken up again: what the report says, and the
    /// names of the engines that were to play.
    Mismatch {
        seed: u64,
        suite: String,
        time_control: String,
        alternate_colors: bool,
        white: String,
        black: String,
    },
}

impl MatchError {
    /// The reason in words.
    pub fn message(&self) -> (r: String)
        ensures
            r@ == (match self {
                MatchError::NoGames =>
                    "a match must play at least one game (--games N with N >= 1)"@,
                MatchError::Mismatch {
                    seed,
                    suite,
                    time_control,
                    alternate_colors,
                    white,
                    black,
                } => "resume report does not match the current configuration (seed "@
                    + text::decimal(*seed as int) + ", suite "@ + text::quoted_text(suite@)
                    + ", tc "@ + text::quoted_text(time_control@) + ", colors "@ + text::bool_text(
                    *alternate_colors,
                ) + ", engines "@ + text::quoted_text(white@) + " vs "@ + text::quoted_text(black@)
                    + ", threads/hash/sprt differ); refusing to mix incompatible matches"@,
            }),
            self matches MatchError::Mismatch { suite, time_control, white, black, .. } ==> (
            text::plainly_quoted(suite@) && text::plainly_quoted(time_control@)
                && text::plainly_quoted(white@) && text::plainly_quoted(black@)),
    {
        match self {
            MatchError::NoGames =>
                "a match must play at least one game (--games N with N >= 1)".to_owned(),
            MatchError::Mismatch {
                seed,
                suite,
                time_control,
                alternate_colors,
                white,
                black,
            } => {
                let mut out: String =
                    "resume report does not match the current configuration (seed ".to_owned();
                text::append_decimal(&mut out, *seed);
                out.append(", suite ");
                out.append(text::quoted(suite.as_str()).as_str());
                out.append(", tc ");
                out.append(text::quoted(time_control.as_str()).as_str());
                out.append(", colors ");
                out.append(text::bool_str(*alternate_colors));
                out.append(", engines ");
                out.append(text::quoted(white.as_str()).as_str());
                out.append(" vs ");
                out.append(text::quoted(black.as_str()).as_str());
                out.append(", threads/hash/sprt differ); refusing to mix incompatible matches");
                out
            },
        }
    }

    /// The error for a report of another match.
    pub open spec fn tells_apart(&self, cfg: MatchConfig, r: Resumed) -> bool {
        self matches MatchError::Mismatch {
            seed,
            suite,
            time_control,
            alternate_colors,
            white,
            black,
        } && seed == r.seed && suite@ == r.suite@ && time_control@ == r.time_control@
            && alternate_colors == r.alternate_colors && white@ == cfg.white.name@ && black@
            == cfg.black.name@
    }
}

/// The two matches are the same.
pub open spec fn same_match(cfg: MatchConfig, label: Seq<char>, r: Resumed) -> bool {
    &&& r.seed == cfg.seed
    &&& r.suite@ == cfg.suite_name@
    &&& r.alternate_colors == cfg.alternate_colors
    &&& r.max_plies == cfg.max_plies
    &&& r.adjudicate_mate == cfg.adjudicate_mate
    &&& r.time_control@ == label
    &&& r.white.name@ == cfg.white.name@
    &&& r.white.threads == cfg.white.threads
    &&& r.white.hash_mb == cfg.white.hash_mb
    &&& r.black.name@ == cfg.black.name@
    &&& r.black.threads == cfg.black.threads
    &&& r.black.hash_mb == cfg.black.hash_mb
    &&& r.same_test
}

/// Refuses a report of another match. `label` is the name of the time control.
pub fn validate_resume(cfg: &MatchConfig, label: &str, r: &Resumed) -> (out: Result<
    (),
    MatchError,
>)
    ensures
        out is Ok <==> same_match(*cfg, label@, *r),
        out matches Err(e) ==> e.tells_apart(*cfg, *r),
{
    let same: bool = r.seed == cfg.seed && text::same(r.suite.as_str(), cfg.suite_name.as_str())
        && r.alternate_colors == cfg.alternate_colors && r.max_plies == cfg.max_plies
        && r.adjudicate_mate == cfg.adjudicate_mate && text::same(r.time_control.as_str(), label)
        && text::same(r.white.name.as_str(), cfg.white.name.as_str()) && r.white.threads
        == cfg.white.threads && r.white.hash_mb == cfg.white.hash_mb && text::same(
        r.black.name.as_str(),
        cfg.black.name.as_str(),
    ) && r.black.threads == cfg.black.threads && r.black.hash_mb == cfg.black.hash_mb
        && r.same_test;
    if same {
        Ok(())
    } else {
        Err(
            MatchError::Mismatch {
                seed: r.seed,
                suite: r.suite.clone(),
                time_control: r.time_control.clone(),
                alternate_colors: r.alternate_colors,
                white: cfg.white.name.clone(),
                black: cfg.black.name.clone(),
            },
        )
    }
}

/// The counts of games that reports hold.
pub open spec fn tally(games: Seq<StdGame>, candidate: CandidateSide) -> Wdl
    decreases games.len(),
{
    if games.len() == 0 {
        Wdl { wins: 0, draws: 0, losses: 0 }
    } else {
        tally(games.drop_last(), candidate).with(
            matchplay::told_result(games.last(), candidate),
        )
    }
}

/// Every game counts once.
pub proof fn law_tally_counts_games(games: Seq<StdGame>, candidate: CandidateSide)
    requires
        games.len() <= u64::MAX,
    ensures
        tally(games, candidate).total() == games.len(),
    decreases games.len(),
{
    if games.len() > 0 {
        law_tally_counts_games(games.drop_last(), candidate);
    }
}

/// The counts for one engine are those for the other, the wins and losses
/// exchanged.
pub proof fn law_tally_mirrors(games: Seq<StdGame>)
    requires
        games.len() <= u64::MAX,
    ensures
        ({
            let a = tally(games, CandidateSide::White);
            let b = tally(games, CandidateSide::Black);
            a.wins == b.losses && a.draws == b.draws && a.losses == b.wins
        }),
    decreases games.len(),
{
    if games.len() > 0 {
        law_tally_mirrors(games.drop_last());
        law_tally_counts_games(games.drop_last(), CandidateSide::White);
        law_tally_counts_games(games.drop_last(), CandidateSide::Black);
    }
}

/// The games of a match so far, and their counts.
pub struct Standing {
    games: Vec<StdGame>,
    wdl: Wdl,
    candidate: CandidateSide,
}

/// What is done next in a match.
#[derive(Debug)]
pub enum Batch {
    /// The match is over, or it is stopped.
    Done,
    /// These games are played, at once where that is wanted.
    Play(Vec<Assignment>),
}

/// How many games are played next.
pub open spec fn batch_size(games: int, parallel: int, completed: int) -> int {
    let most = if parallel < 1 {
        1
    } else {
        parallel
    };
    if games - completed < most {
        games - completed
    } else {
        most
    }
}

impl Standing {
    /// The games.
    pub closed spec fn played(&self) -> Seq<StdGame> {
        self.games@
    }

    /// The counts.
    pub closed spec fn counts(&self) -> Wdl {
        self.wdl
    }

    /// The engine that the counts speak for.
    pub closed spec fn side(&self) -> CandidateSide {
        self.candidate
    }

    #[verifier::type_invariant]
    spec fn counted(&self) -> bool {
        self.wdl == tally(self.games@, self.candidate)
    }

    /// Begins a match, with the games of the report that it takes up again, if
    /// any. `label` is the name of the time control.
    pub fn begin(cfg: &MatchConfig, label: &str, resume: Option<(Resumed, Vec<StdGame>)>) -> (r:
        Result<Standing, MatchError>)
        ensures
            cfg.games == 0 ==> (r matches Err(e) && e is NoGames),
            cfg.games > 0 ==> (r is Ok <==> (resume matches Some(p) ==> same_match(
                *cfg,
                label@,
                p.0,
            ))),
            cfg.games > 0 ==> (r matches Err(e) ==> (resume matches Some(p) && e.tells_apart(
                *cfg,
                p.0,
            ))),
            r matches Ok(s) ==> {
                &&& s.side() == cfg.candidate
                &&& s.played() == (match resume {
                    Some(p) => p.1@,
                    None => Seq::empty(),
                })
                &&& s.counts() == tally(s.played(), cfg.candidate)
            },
    {
        if cfg.games == 0 {
            return Err(MatchError::NoGames);
        }
        let games: Vec<StdGame> = match resume {
            Some((key, games)) => {
                match validate_resume(cfg, label, &key) {
                    Ok(_) => {},
                    Err(e) => {
                        return Err(e);
                    },
                }
                games
            },
            None => Vec::new(),
        };
        let mut wdl: Wdl = Wdl::default();
        let mut i: usize = 0;
        let candidate: CandidateSide = cfg.candidate;
        assert(games@.take(0) =~= Seq::<StdGame>::empty());
        while i < games.len()
            invariant
                i <= games@.len(),
                wdl == tally(games@.take(i as int), candidate),
            decreases games@.len() - i,
        {
            proof {
                law_tally_counts_games(games@.take(i as int), candidate);
                assert(games@.take(i + 1).drop_last() =~= games@.take(i as int));
            }
            matchplay::apply_result(&mut wdl, candidate_result_std(&games[i], candidate));
            i = i + 1;
        }
        assert(games@.take(i as int) =~= games@);
        Ok(Standing { games, wdl, candidate })
    }

    /// What is done next: nothing where all games are played, the test has
    /// decided or the match is stopped.
    pub fn next(
        &self,
        cfg: &MatchConfig,
        order: &Vec<usize>,
        test: Option<SprtDecision>,
        stopped: bool,
    ) -> (r: Batch)
        requires
            order@.len() > 0,
        ensures
            r is Done <==> self.played().len() >= cfg.games || stopped || (test is Some && test
                != Some(SprtDecision::Running)),
            r matches Batch::Play(games) ==> {
                &&& games@.len() == batch_size(
                    cfg.games as int,
                    cfg.parallel as int,
                    self.played().len() as int,
                )
                &&& games@.len() > 0
                &&& forall|k: int|
                    0 <= k < games@.len() ==> #[trigger] games@[k] == assigned(
                        order@,
                        cfg.seed,
                        cfg.alternate_colors,
                        self.played().len() + k,
                    )
            },
    {
        let decided: bool = match test {
            Some(d) => d != SprtDecision::Running,
            None => false,
        };
        let completed: usize = self.games.len();
        if completed >= cfg.games || stopped || decided {
            return Batch::Done;
        }
        let most: usize = if cfg.parallel < 1 {
            1
        } else {
            cfg.parallel
        };
        let size: usize = if cfg.games - completed < most {
            cfg.games - completed
        } else {
            most
        };
        let mut games: Vec<Assignment> = Vec::new();
        let mut k: usize = 0;
        while k < size
            invariant
                k <= size,
                completed + size <= cfg.games,
                order@.len() > 0,
                games@.len() == k,
                forall|j: int|
                    0 <= j < k ==> #[trigger] games@[j] == assigned(
                        order@,
                        cfg.seed,
                        cfg.alternate_colors,
                        completed + j,
                    ),
            decreases size - k,
        {
            games.push(assign(order, cfg.seed, cfg.alternate_colors, completed + k));
            k = k + 1;
        }
        Batch::Play(games)
    }

    /// Counts a game that was played, and tells its result for the candidate.
    pub fn account(&mut self, g: &PlayedGame) -> (r: GameResult)
        requires
            old(self).played().len() < u64::MAX,
        ensures
            r == matchplay::result_for(g.outcome, g.white_was_a, old(self).side()),
            final(self).side() == old(self).side(),
            final(self).played().len() == old(self).played().len() + 1,
            final(self).played().drop_last() == old(self).played(),
            g.told(final(self).played().last()),
            final(self).counts() == old(self).counts().with(r),
            final(self).counts() == tally(final(self).played(), final(self).side()),
    {
        proof {
            use_type_invariant(&*self);
        }
        let candidate: CandidateSide = self.candidate;
        let r: GameResult = candidate_result(g, candidate);
        let ghost before = self.games@;
        let told: StdGame = g.to_std();
        let mut held: Standing = Standing { games: Vec::new(), wdl: Wdl::default(), candidate };
        std::mem::swap(&mut held, self);
        let mut wdl: Wdl = held.wdl;
        let mut games: Vec<StdGame> = held.games;
        games.push(told);
        proof {
            law_tally_counts_games(before, candidate);
            matchplay::law_reports_keep_results(*g, told, candidate);
            assert(games@.drop_last() =~= before);
        }
        matchplay::apply_result(&mut wdl, r);
        *self = Standing { games, wdl, candidate };
        r
    }

    /// The games.
    pub fn games(&self) -> (r: &Vec<StdGame>)
        ensures
            r@ == self.played(),
    {
        &self.games
    }

    /// The counts.
    pub fn wdl(&self) -> (r: Wdl)
        ensures
            r == self.counts(),
            r == tally(self.played(), self.side()),
    {
        proof {
            use_type_invariant(self);
        }
        self.wdl
    }

    /// How many games are over.
    pub fn completed(&self) -> (r: usize)
        ensures
            r == self.played().len(),
    {
        self.games.len()
    }
}

// --- summaries ------------------------------------------------------------------------------------

/// How many plies the games before `n` have.
pub open spec fn plies(games: Seq<StdGame>, n: int) -> int
    decreases n,
{
    if n <= 0 {
        0
    } else {
        plies(games, n - 1) + games[n - 1].moves@.len()
    }
}

/// How many plies the games have together.
pub fn total_plies(games: &Vec<StdGame>) -> (r: u128)
    ensures
        r == plies(games@, games@.len() as int),
{
    let mut out: u128 = 0;
    let mut i: usize = 0;
    while i < games.len()
        invariant
            i <= games@.len(),
            out == plies(games@, i as int),
            out <= i * u64::MAX,
        decreases games@.len() - i,
    {
        assert(i * u64::MAX + u64::MAX == (i + 1) * u64::MAX) by (nonlinear_arith);
        assert((i + 1) * u64::MAX <= u64::MAX * u64::MAX) by (nonlinear_arith)
            requires
                i + 1 <= u64::MAX,
        ;
        out = out + games[i].moves.len() as u128;
        i = i + 1;
    }
    out
}

/// How many of the games before `n` ended for a reason.
pub open spec fn ended(games: Seq<StdGame>, n: int, label: Seq<char>) -> int
    decreases n,
{
    if n <= 0 {
        0
    } else {
        ended(games, n - 1, label) + (if games[n - 1].termination@ == label {
            1int
        } else {
            0
        })
    }
}

/// The reasons for which the games before `n` ended, each with its number, in the
/// order of their names.
pub open spec fn histogram(games: Seq<StdGame>, n: int, h: Seq<(String, u64)>) -> bool {
    &&& forall|i: int, j: int|
        0 <= i < j < h.len() ==> text::before((#[trigger] h[i]).0@, (#[trigger] h[j]).0@)
    &&& forall|i: int|
        0 <= i < h.len() ==> (#[trigger] h[i]).1 == ended(games, n, h[i].0@) && h[i].1 > 0
    &&& forall|k: int|
        0 <= k < n ==> exists|i: int|
            0 <= i < h.len() && (#[trigger] h[i]).0@ == (#[trigger] games[k]).termination@
}

proof fn lemma_ended(games: Seq<StdGame>, n: int, label: Seq<char>)
    requires
        0 <= n,
    ensures
        0 <= ended(games, n, label) <= n,
        ended(games, n, label) == 0 ==> forall|k: int|
            0 <= k < n ==> (#[trigger] games[k]).termination@ != label,
        (forall|k: int| 0 <= k < n ==> (#[trigger] games[k]).termination@ != label) ==> ended(
            games,
            n,
            label,
        ) == 0,
    decreases n,
{
    if n > 0 {
        lemma_ended(games, n - 1, label);
    }
}

/// The histogram with one more game of a reason that it holds.
proof fn lemma_more(games: Seq<StdGame>, n: int, h: Seq<(String, u64)>, i: int, e: (String, u64))
    requires
        0 <= n < games.len(),
        histogram(games, n, h),
        0 <= i < h.len(),
        h[i].0@ == games[n].termination@,
        e.0@ == h[i].0@,
        e.1 == h[i].1 + 1,
    ensures
        histogram(games, n + 1, h.update(i, e)),
{
    let g = h.update(i, e);
    assert forall|a: int| 0 <= a < g.len() implies (#[trigger] g[a]).1 == ended(
        games,
        n + 1,
        g[a].0@,
    ) && g[a].1 > 0 by {
        assert(h[a].1 == ended(games, n, h[a].0@));
        if a != i {
            if a < i {
                text::law_before_is_total(h[a].0@, h[i].0@);
            } else {
                text::law_before_is_total(h[i].0@, h[a].0@);
            }
            assert(h[a].0@ != h[i].0@);
        }
    }
    assert forall|k: int| 0 <= k < n + 1 implies exists|a: int|
        0 <= a < g.len() && (#[trigger] g[a]).0@ == (#[trigger] games[k]).termination@ by {
        if k < n {
            let a = choose|a: int|
                0 <= a < h.len() && (#[trigger] h[a]).0@ == games[k].termination@;
            assert(g[a].0@ == games[k].termination@);
        } else {
            assert(g[i].0@ == games[k].termination@);
        }
    }
}

/// The histogram with a game of a reason that it does not hold yet.
proof fn lemma_new(games: Seq<StdGame>, n: int, h: Seq<(String, u64)>, at: int, e: (String, u64))
    requires
        0 <= n < games.len(),
        histogram(games, n, h),
        0 <= at <= h.len(),
        e.0@ == games[n].termination@,
        e.1 == 1,
        forall|a: int| 0 <= a < at ==> text::before((#[trigger] h[a]).0@, e.0@),
        forall|a: int| at <= a < h.len() ==> text::before(e.0@, (#[trigger] h[a]).0@),
    ensures
        histogram(games, n + 1, h.insert(at, e)),
{
    let g = h.insert(at, e);
    assert forall|a: int| 0 <= a < h.len() implies (#[trigger] h[a]).0@ != e.0@ by {
        text::law_before_is_total(h[a].0@, e.0@);
    }
    assert(ended(games, n, e.0@) == 0) by {
        lemma_ended(games, n, e.0@);
        assert forall|k: int| 0 <= k < n implies (#[trigger] games[k]).termination@ != e.0@ by {
            let a = choose|a: int|
                0 <= a < h.len() && (#[trigger] h[a]).0@ == games[k].termination@;
        }
    }
    assert forall|a: int| 0 <= a < g.len() implies (#[trigger] g[a]).1 == ended(
        games,
        n + 1,
        g[a].0@,
    ) && g[a].1 > 0 by {
        if a < at {
            assert(g[a] == h[a]);
        } else if a > at {
            assert(g[a] == h[a - 1]);
        }
    }
    assert forall|a: int, b: int| 0 <= a < b < g.len() implies text::before(
        (#[trigger] g[a]).0@,
        (#[trigger] g[b]).0@,
    ) by {
        let c = if a < at {
            a
        } else {
            a - 1
        };
        let d = if b < at {
            b
        } else {
            b - 1
        };
        if a == at {
            assert(g[b] == h[d]);
        } else if b == at {
            assert(g[a] == h[c]);
        } else {
            assert(g[a] == h[c] && g[b] == h[d]);
        }
    }
    assert forall|k: int| 0 <= k < n + 1 implies exists|a: int|
        0 <= a < g.len() && (#[trigger] g[a]).0@ == (#[trigger] games[k]).termination@ by {
        if k < n {
            let a = choose|a: int|
                0 <= a < h.len() && (#[trigger] h[a]).0@ == games[k].termination@;
            if a < at {
                assert(g[a] == h[a]);
            } else {
                assert(g[a + 1] == h[a]);
            }
        } else {
            assert(g[at].0@ == games[k].termination@);
        }
    }
}

/// Where a label stands in a list of labels in order, or where it belongs.
fn place_of(h: &Vec<(String, u64)>, label: &str) -> (r: (usize, bool))
    requires
        forall|i: int, j: int|
            0 <= i < j < h@.len() ==> text::before((#[trigger] h@[i]).0@, (#[trigger] h@[j]).0@),
    ensures
        r.1 ==> r.0 < h@.len() && h@[r.0 as int].0@ == label@,
        !r.1 ==> r.0 <= h@.len() && (forall|a: int|
            0 <= a < r.0 ==> text::before((#[trigger] h@[a]).0@, label@)) && (forall|a: int|
            r.0 <= a < h@.len() ==> text::before(label@, (#[trigger] h@[a]).0@)),
{
    let mut i: usize = 0;
    while i < h.len()
        invariant
            i <= h@.len(),
            forall|a: int, b: int|
                0 <= a < b < h@.len() ==> text::before(
                    (#[trigger] h@[a]).0@,
                    (#[trigger] h@[b]).0@,
                ),
            forall|a: int| 0 <= a < i ==> text::before((#[trigger] h@[a]).0@, label@),
        decreases h@.len() - i,
    {
        if text::same(h[i].0.as_str(), label) {
            return (i, true);
        }
        if !text::is_before(h[i].0.as_str(), label) {
            proof {
                text::law_before_is_total(h@[i as int].0@, label@);
                assert forall|a: int| i <= a < h@.len() implies text::before(
                    label@,
                    (#[trigger] h@[a]).0@,
                ) by {
                    if a > i {
                        text::law_before_is_transitive(label@, h@[i as int].0@, h@[a].0@);
                    }
                }
            }
            return (i, false);
        }
        i = i + 1;
    }
    (i, false)
}

/// The reasons for which games ended, each with its number, in the order of their
/// names.
pub fn termination_counts(games: &Vec<StdGame>) -> (r: Vec<(String, u64)>)
    ensures
        histogram(games@, games@.len() as int, r@),
{
    let mut h: Vec<(String, u64)> = Vec::new();
    let mut n: usize = 0;
    while n < games.len()
        invariant
            n <= games@.len(),
            histogram(games@, n as int, h@),
        decreases games@.len() - n,
    {
        let label: &str = games[n].termination.as_str();
        let (i, found) = place_of(&h, label);
        let ghost before = h@;
        if found {
            proof {
                lemma_ended(games@, n as int, h@[i as int].0@);
            }
            let more: u64 = h[i].1 + 1;
            let e: (String, u64) = (h[i].0.clone(), more);
            proof {
                lemma_more(games@, n as int, before, i as int, e);
            }
            h.set(i, e);
        } else {
            let e: (String, u64) = (label.to_owned(), 1);
            proof {
                lemma_new(games@, n as int, before, i as int, e);
            }
            h.insert(i, e);
            assert(h@ =~= before.insert(i as int, e));
        }
        n = n + 1;
    }
    h
}

// --- laws -----------------------------------------------------------------------------------------

/// Every opening is used once before any comes again: two games of the same round
/// through the openings have different ones.
pub proof fn law_openings_rotate(order: Seq<usize>, seed: u64, alternate: bool, g: int, h: int)
    requires
        openings::is_order(order, order.len()),
        order.len() > 0,
        0 <= g < h,
        g / (order.len() as int) == h / (order.len() as int),
    ensures
        assigned(order, seed, alternate, g).opening_idx != assigned(
            order,
            seed,
            alternate,
            h,
        ).opening_idx,
{
    let n = order.len() as int;
    vstd::arithmetic::div_mod::lemma_fundamental_div_mod(g, n);
    vstd::arithmetic::div_mod::lemma_fundamental_div_mod(h, n);
    assert(g % n < h % n);
}

/// Where colours alternate, an engine that has White in a game has Black in the
/// next; where they do not, the first engine always has White.
pub proof fn law_colours_alternate(order: Seq<usize>, seed: u64, game: int)
    requires
        0 <= game,
    ensures
        assigned(order, seed, true, game).white_was_a != assigned(
            order,
            seed,
            true,
            game + 1,
        ).white_was_a,
        assigned(order, seed, true, 0).white_was_a,
        assigned(order, seed, false, game).white_was_a,
{
}

/// How many games run at once does not matter to which games they are: the games
/// of a match are numbered through, and a game is given by its number.
pub proof fn law_batches_follow_on(games: int, parallel: int, completed: int)
    requires
        0 <= completed < games,
    ensures
        1 <= batch_size(games, parallel, completed) <= games - completed,
        parallel >= 1 ==> batch_size(games, parallel, completed) <= parallel,
        parallel <= 1 ==> batch_size(games, parallel, completed) == 1,
{
}

/// The games of a match from its first one on, where `play` tells how the game
/// with an assignment goes.
pub open spec fn in_sequence(
    games: Seq<StdGame>,
    order: Seq<usize>,
    seed: u64,
    alternate: bool,
    play: spec_fn(Assignment) -> PlayedGame,
) -> bool {
    forall|i: int|
        0 <= i < games.len() ==> play(assigned(order, seed, alternate, i)).told(
            #[trigger] games[i],
        )
}

/// Two reports tell of the same game.
pub open spec fn same_game(a: StdGame, b: StdGame) -> bool {
    &&& a.game_no == b.game_no
    &&& a.opening_idx == b.opening_idx
    &&& a.seed == b.seed
    &&& a.white_was_a == b.white_was_a
    &&& a.opening@ == b.opening@
    &&& a.fen_after_opening@ == b.fen_after_opening@
    &&& text::shown(a.moves@) == text::shown(b.moves@)
    &&& a.outcome@ == b.outcome@
    &&& a.termination@ == b.termination@
}

/// The games of a batch follow on those before it, however many there are of
/// either.
pub proof fn law_batch_goes_on(
    games: Seq<StdGame>,
    more: Seq<StdGame>,
    order: Seq<usize>,
    seed: u64,
    alternate: bool,
    play: spec_fn(Assignment) -> PlayedGame,
)
    requires
        in_sequence(games, order, seed, alternate, play),
        forall|k: int|
            0 <= k < more.len() ==> play(assigned(order, seed, alternate, games.len() + k)).told(
                #[trigger] more[k],
            ),
    ensures
        in_sequence(games + more, order, seed, alternate, play),
{
    let all = games + more;
    assert forall|i: int| 0 <= i < all.len() implies play(
        assigned(order, seed, alternate, i),
    ).told(#[trigger] all[i]) by {
        if i < games.len() {
            assert(all[i] == games[i]);
        } else {
            assert(all[i] == more[i - games.len()]);
        }
    }
}

/// Where games depend on their assignments alone, a match that was played in
/// batches of another size, or was taken up again, has the same games as one that
/// was played in sequence: all games that both have are the same, and with as many
/// games the counts, the plies and the reasons for which games ended are too.
pub proof fn law_matches_agree(
    a: Seq<StdGame>,
    b: Seq<StdGame>,
    order: Seq<usize>,
    seed: u64,
    alternate: bool,
    play: spec_fn(Assignment) -> PlayedGame,
    candidate: CandidateSide,
    label: Seq<char>,
)
    requires
        in_sequence(a, order, seed, alternate, play),
        in_sequence(b, order, seed, alternate, play),
    ensures
        forall|i: int|
            #![trigger a[i]]
            #![trigger b[i]]
            0 <= i < a.len() && i < b.len() ==> same_game(a[i], b[i]),
        a.len() == b.len() ==> {
            &&& tally(a, candidate) == tally(b, candidate)
            &&& plies(a, a.len() as int) == plies(b, b.len() as int)
            &&& ended(a, a.len() as int, label) == ended(b, b.len() as int, label)
        },
{
    assert forall|i: int|
        #![trigger a[i]]
        #![trigger b[i]]
        0 <= i < a.len() && i < b.len() implies same_game(a[i], b[i]) by {
        let g = play(assigned(order, seed, alternate, i));
        assert(g.told(a[i]) && g.told(b[i]));
    }
    if a.len() == b.len() {
        lemma_same_tally(a, b, candidate);
        lemma_same_sums(a, b, a.len() as int, label);
    }
}

proof fn lemma_same_tally(a: Seq<StdGame>, b: Seq<StdGame>, candidate: CandidateSide)
    requires
        a.len() == b.len(),
        forall|i: int| 0 <= i < a.len() ==> same_game(#[trigger] a[i], b[i]),
    ensures
        tally(a, candidate) == tally(b, candidate),
    decreases a.len(),
{
    if a.len() > 0 {
        assert forall|i: int| 0 <= i < a.drop_last().len() implies same_game(
            #[trigger] a.drop_last()[i],
            b.drop_last()[i],
        ) by {
            assert(same_game(a[i], b[i]));
        }
        lemma_same_tally(a.drop_last(), b.drop_last(), candidate);
        assert(same_game(a[a.len() - 1], b[a.len() - 1]));
    }
}

proof fn lemma_same_sums(a: Seq<StdGame>, b: Seq<StdGame>, n: int, label: Seq<char>)
    requires
        0 <= n <= a.len(),
        n <= b.len(),
        forall|i: int| 0 <= i < n ==> same_game(#[trigger] a[i], b[i]),
    ensures
        plies(a, n) == plies(b, n),
        ended(a, n, label) == ended(b, n, label),
    decreases n,
{
    if n > 0 {
        lemma_same_sums(a, b, n - 1, label);
        assert(same_game(a[n - 1], b[n - 1]));
        assert(text::shown(a[n - 1].moves@).len() == a[n - 1].moves@.len());
        assert(text::shown(b[n - 1].moves@).len() == b[n - 1].moves@.len());
    }
}

/// The games of a match that has played `done` and goes on batch by batch until
/// it has `games` of them.
pub open spec fn carried_on(
    done: Seq<StdGame>,
    order: Seq<usize>,
    seed: u64,
    alternate: bool,
    games: int,
    parallel: int,
    play: spec_fn(Assignment) -> StdGame,
) -> Seq<StdGame>
    decreases games - done.len(),
{
    if done.len() >= games {
        done
    } else {
        let batch = Seq::new(
            batch_size(games, parallel, done.len() as int) as nat,
            |k: int| play(assigned(order, seed, alternate, done.len() + k)),
        );
        carried_on(done + batch, order, seed, alternate, games, parallel, play)
    }
}

/// The first `n` games of a match, one after the other.
pub open spec fn one_by_one(
    order: Seq<usize>,
    seed: u64,
    alternate: bool,
    n: int,
    play: spec_fn(Assignment) -> StdGame,
) -> Seq<StdGame> {
    Seq::new(n as nat, |i: int| play(assigned(order, seed, alternate, i)))
}

/// Where games depend on their assignments alone, a match that is taken up after
/// `k` games and played in batches of any size comes to the games of a match
/// played one by one.
pub proof fn law_match_is_reproducible(
    order: Seq<usize>,
    seed: u64,
    alternate: bool,
    k: int,
    games: int,
    parallel: int,
    play: spec_fn(Assignment) -> StdGame,
)
    requires
        0 <= k <= games,
    ensures
        carried_on(
            one_by_one(order, seed, alternate, k, play),
            order,
            seed,
            alternate,
            games,
            parallel,
            play,
        ) == one_by_one(order, seed, alternate, games, play),
    decreases games - k,
{
    let done = one_by_one(order, seed, alternate, k, play);
    if k < games {
        let n = batch_size(games, parallel, k);
        let batch = Seq::new(
            n as nat,
            |i: int| play(assigned(order, seed, alternate, done.len() + i)),
        );
        assert(done + batch =~= one_by_one(order, seed, alternate, k + n, play));
        law_match_is_reproducible(order, seed, alternate, k + n, games, parallel, play);
    }
}

/// A match that is taken up again counts as if it had been played at once.
pub proof fn law_resume_counts(first: Seq<StdGame>, more: Seq<StdGame>, candidate: CandidateSide)
    requires
        first.len() + more.len() <= u64::MAX,
    ensures
        ({
            let a = tally(first, candidate);
            let b = tally(more, candidate);
            tally(first + more, candidate) == (Wdl {
                wins: (a.wins + b.wins) as u64,
                draws: (a.draws + b.draws) as u64,
                losses: (a.losses + b.losses) as u64,
            })
        }),
    decreases more.len(),
{
    if more.len() == 0 {
        assert(first + more =~= first);
    } else {
        law_resume_counts(first, more.drop_last(), candidate);
        assert((first + more).drop_last() =~= first + more.drop_last());
        assert((first + more).last() == more.last());
        law_tally_counts_games(first, candidate);
        law_tally_counts_games(more.drop_last(), candidate);
        law_tally_counts_games(more, candidate);
    }
}

/// A game that is added counts as a win where the engine that the counts speak for had the
/// colour that won, as a loss where it had the other, and as a draw otherwise.
pub proof fn law_games_count_for_the_winner(
    games: Seq<StdGame>,
    g: StdGame,
    candidate: CandidateSide,
)
    requires
        games.len() < u64::MAX,
    ensures
        ({
            let had_white = g.white_was_a == (candidate == CandidateSide::White);
            let before = tally(games, candidate);
            let after = tally(games.push(g), candidate);
            let won = if had_white {
                g.outcome@ == "1-0"@
            } else {
                g.outcome@ == "0-1"@
            };
            let lost = if had_white {
                g.outcome@ == "0-1"@
            } else {
                g.outcome@ == "1-0"@
            };
            &&& after.wins == before.wins + (if won {
                1int
            } else {
                0
            })
            &&& after.losses == before.losses + (if lost {
                1int
            } else {
                0
            })
            &&& after.draws == before.draws + (if !won && !lost {
                1int
            } else {
                0
            })
        }),
{
    reveal_strlit("1-0");
    reveal_strlit("0-1");
    assert("1-0"@[0] == '1' && "0-1"@[0] == '0');
    assert(games.push(g).drop_last() =~= games);
    law_tally_counts_games(games, candidate);
}

/// Two reports from which a match can be taken up again agree in all that a match is set by,
/// and a report that agrees with one of them is another.
pub proof fn law_resumed_reports_agree(
    cfg: MatchConfig,
    label: Seq<char>,
    a: Resumed,
    b: Resumed,
)
    requires
        same_match(cfg, label, a),
    ensures
        same_match(cfg, label, b) <==> {
            &&& a.seed == b.seed
            &&& a.suite@ == b.suite@
            &&& a.time_control@ == b.time_control@
            &&& a.alternate_colors == b.alternate_colors
            &&& a.max_plies == b.max_plies
            &&& a.adjudicate_mate == b.adjudicate_mate
            &&& a.white.name@ == b.white.name@
            &&& a.white.threads == b.white.threads
            &&& a.white.hash_mb == b.white.hash_mb
            &&& a.black.name@ == b.black.name@
            &&& a.black.threads == b.black.threads
            &&& a.black.hash_mb == b.black.hash_mb
            &&& b.same_test
        },
        cfg.seed == a.seed,
        cfg.suite_name@ == a.suite@,
        cfg.white.name@ == a.white.name@,
        cfg.black.name@ == a.black.name@,
{
}

/// The games of a match are numbered as they are played, each with a seed of its own.
pub proof fn law_games_are_numbered(order: Seq<usize>, seed: u64, alternate: bool, game: usize)
    requires
        order.len() > 0,
    ensures
        assigned(order, seed, alternate, game as int).game_no == game,
        exists|i: int|
            0 <= i < order.len() && assigned(order, seed, alternate, game as int).opening_idx
                == #[trigger] order[i],
        game < order.len() ==> assigned(order, seed, alternate, game as int).opening_idx
            == order[game as int],
{
    let n = order.len() as int;
    let i = game as int % n;
    assert(assigned(order, seed, alternate, game as int).opening_idx == order[i]);
    if game < n {
        vstd::arithmetic::div_mod::lemma_small_mod(game as nat, n as nat);
    }
}

/// One more game adds its moves to the plies of a match, and itself to the games that ended as it
/// did.
pub proof fn law_games_add_up(games: Seq<StdGame>, g: StdGame, label: Seq<char>)
    ensures
        plies(games.push(g), games.len() as int + 1) == plies(games, games.len() as int)
            + g.moves@.len(),
        ended(games.push(g), games.len() as int + 1, label) == ended(
            games,
            games.len() as int,
            label,
        ) + (if g.termination@ == label {
            1int
        } else {
            0
        }),
        plies(games, 0) == 0,
        ended(games, 0, label) == 0,
{
    lemma_front(games, g, label, games.len() as int);
}

proof fn lemma_front(games: Seq<StdGame>, g: StdGame, label: Seq<char>, n: int)
    requires
        0 <= n <= games.len(),
    ensures
        plies(games.push(g), n) == plies(games, n),
        ended(games.push(g), n, label) == ended(games, n, label),
    decreases n,
{
    if n > 0 {
        lemma_front(games, g, label, n - 1);
        assert(games.push(g)[n - 1] == games[n - 1]);
    }
}

} // verus!
