//! Results of matches: wins, draws and losses, and when a sequential test ends.
use vstd::prelude::*;
use crate::text;

verus! {

/// How many games were won, drawn and lost.
#[derive(Debug, Clone, Copy, PartialEq, Eq, Structural)]
pub struct Wdl {
    pub wins: u64,
    pub draws: u64,
    pub losses: u64,
}

impl Default for Wdl {
    fn default() -> (r: Self)
        ensures
            r == (Wdl { wins: 0, draws: 0, losses: 0 }),
    {
        Wdl { wins: 0, draws: 0, losses: 0 }
    }
}

impl Wdl {
    /// How many games there were.
    pub open spec fn total(self) -> int {
        self.wins + self.draws + self.losses
    }

    /// How many games there were.
    pub fn games(&self) -> (r: u64)
        requires
            self.total() <= u64::MAX,
        ensures
            r == self.total(),
    {
        self.wins + self.draws + self.losses
    }

    /// The counts and their sum in one line.
    pub fn to_text(&self) -> (r: String)
        requires
            self.total() <= u64::MAX,
        ensures
            r@ == "W"@ + text::decimal(self.wins as int) + " D"@ + text::decimal(self.draws as int)
                + " L"@ + text::decimal(self.losses as int) + " ("@ + text::decimal(self.total())
                + " games)"@,
    {
        let mut out: String = "W".to_owned();
        text::append_decimal(&mut out, self.wins);
        out.append(" D");
        text::append_decimal(&mut out, self.draws);
        out.append(" L");
        text::append_decimal(&mut out, self.losses);
        out.append(" (");
        text::append_decimal(&mut out, self.games());
        out.append(" games)");
        out
    }

    /// The counts with one more result.
    pub open spec fn with(self, r: GameResult) -> Wdl {
        match r {
            GameResult::Win => Wdl { wins: (self.wins + 1) as u64, ..self },
            GameResult::Draw => Wdl { draws: (self.draws + 1) as u64, ..self },
            GameResult::Loss => Wdl { losses: (self.losses + 1) as u64, ..self },
        }
    }
}

/// How a game ended, from White's side.
#[derive(Debug, Clone, Copy, PartialEq, Eq, Structural)]
pub enum Outcome {
    WhiteWin,
    Draw,
    BlackWin,
}

impl Outcome {
    /// The result as PGN writes it.
    pub open spec fn pgn(self) -> Seq<char> {
        match self {
            Outcome::WhiteWin => "1-0"@,
            Outcome::Draw => "1/2-1/2"@,
            Outcome::BlackWin => "0-1"@,
        }
    }

    /// The result as PGN writes it.
    pub fn to_pgn(self) -> (r: &'static str)
        ensures
            r@ == self.pgn(),
    {
        match self {
            Outcome::WhiteWin => "1-0",
            Outcome::Draw => "1/2-1/2",
            Outcome::BlackWin => "0-1",
        }
    }
}

/// The result of a game from the first engine's side.
#[derive(Debug, Clone, Copy, PartialEq, Eq, Structural)]
pub enum GameResult {
    Win,
    Draw,
    Loss,
}

impl GameResult {
    /// The result from White's side.
    pub open spec fn for_white(outcome: Outcome) -> GameResult {
        match outcome {
            Outcome::WhiteWin => GameResult::Win,
            Outcome::Draw => GameResult::Draw,
            Outcome::BlackWin => GameResult::Loss,
        }
    }

    /// The result from White's side.
    pub fn from_white(outcome: Outcome) -> (r: GameResult)
        ensures
            r == Self::for_white(outcome),
    {
        match outcome {
            Outcome::WhiteWin => GameResult::Win,
            Outcome::Draw => GameResult::Draw,
            Outcome::BlackWin => GameResult::Loss,
        }
    }

    /// The result from the other side.
    pub open spec fn turned(self) -> GameResult {
        match self {
            GameResult::Win => GameResult::Loss,
            GameResult::Draw => GameResult::Draw,
            GameResult::Loss => GameResult::Win,
        }
    }
}

/// How a sequential test stands.
#[derive(Debug, Clone, Copy, PartialEq, Eq, Structural)]
pub enum SprtDecision {
    /// More games are needed.
    Running,
    /// The candidate is stronger.
    AcceptH1,
    /// The candidate is not stronger.
    AcceptH0,
    /// The games ran out.
    MaxGames,
}

/// How a sequential test stands.
pub open spec fn decision(reached_upper: bool, reached_lower: bool, games: int, max_games: int) -> SprtDecision {
    if reached_upper {
        SprtDecision::AcceptH1
    } else if reached_lower {
        SprtDecision::AcceptH0
    } else if games >= max_games {
        SprtDecision::MaxGames
    } else {
        SprtDecision::Running
    }
}

/// How a sequential test stands: whether its ratio has reached the upper bound
/// comes first, then the lower bound, then the number of games.
pub fn decide(reached_upper: bool, reached_lower: bool, games: u64, max_games: u64) -> (r:
    SprtDecision)
    ensures
        r == decision(reached_upper, reached_lower, games as int, max_games as int),
{
    if reached_upper {
        SprtDecision::AcceptH1
    } else if reached_lower {
        SprtDecision::AcceptH0
    } else if games >= max_games {
        SprtDecision::MaxGames
    } else {
        SprtDecision::Running
    }
}

/// The name of a decision.
pub open spec fn decision_name(d: SprtDecision) -> Seq<char> {
    match d {
        SprtDecision::Running => "Running"@,
        SprtDecision::AcceptH1 => "AcceptH1"@,
        SprtDecision::AcceptH0 => "AcceptH0"@,
        SprtDecision::MaxGames => "MaxGames"@,
    }
}

/// The name of a decision.
pub fn sprt_decision_label(d: SprtDecision) -> (r: &'static str)
    ensures
        r@ == decision_name(d),
{
    match d {
        SprtDecision::Running => "Running",
        SprtDecision::AcceptH1 => "AcceptH1",
        SprtDecision::AcceptH0 => "AcceptH0",
        SprtDecision::MaxGames => "MaxGames",
    }
}

// --- laws -----------------------------------------------------------------------------------------

/// A test goes on until one of its bounds is reached or the games run out: the candidate is
/// stronger where it reached the upper bound, and not where it reached the lower one alone.
pub proof fn law_tests_end(upper: bool, lower: bool, games: int, max_games: int)
    ensures
        decision(upper, lower, games, max_games) == SprtDecision::AcceptH1 <==> upper,
        decision(upper, lower, games, max_games) == SprtDecision::AcceptH0 <==> lower && !upper,
        decision(upper, lower, games, max_games) == SprtDecision::Running <==> !upper && !lower
            && games < max_games,
{
}

/// A result counts once, in its own place.
pub proof fn law_results_count_once(w: Wdl, r: GameResult)
    requires
        w.total() < u64::MAX,
    ensures
        w.with(r).wins - w.wins == (if r == GameResult::Win {
            1int
        } else {
            0
        }),
        w.with(r).draws - w.draws == (if r == GameResult::Draw {
            1int
        } else {
            0
        }),
        w.with(r).losses - w.losses == (if r == GameResult::Loss {
            1int
        } else {
            0
        }),
        w.with(r).total() == w.total() + 1,
{
}

/// White's result is a win where White wins, and turning the board round turns it round.
pub proof fn law_white_wins(o: Outcome)
    ensures
        GameResult::for_white(o) == GameResult::Win <==> o == Outcome::WhiteWin,
        GameResult::for_white(o) == GameResult::Loss <==> o == Outcome::BlackWin,
        GameResult::for_white(o).turned() == GameResult::Win <==> o == Outcome::BlackWin,
        GameResult::for_white(o).turned().turned() == GameResult::for_white(o),
{
}

} // verus!
