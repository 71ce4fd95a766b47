//! Matches between two engines: who plays, how long, from which openings, and
//! how the results are counted.
use vstd::prelude::*;
use crate::book;
use crate::endgame::{LoadReport, Syzygy, TablePath, Tables};
use crate::endgame;
use crate::evaluation::EvalParams;
use crate::evaluation::params;
use crate::rating::{GameResult, Outcome, Wdl};
use crate::rating;
use crate::text;
use crate::types::RawMove;

pub mod cli;
pub mod clock;
pub mod fingerprint;
pub mod game;
pub mod pgn;
pub mod runner;

pub use crate::openings::suite_by_name;
pub use crate::rating::sprt_decision_label;
pub use clock::{move_budget, Clock, TimeControl, TimeLimit};

verus! {

/// The mark of a report that is kept as a baseline.
pub const BASELINE_TAG: &'static str = "Stage8-Classical-SMP-Baseline";

/// One side of a match.
#[derive(Debug)]
pub struct EngineConfig {
    /// The name that reports show.
    pub name: String,
    /// The parameters that the side evaluates with.
    pub params: EvalParams,
    /// The name of the parameters.
    pub params_label: String,
    pub threads: usize,
    /// The size of the transposition table in megabytes.
    pub hash_mb: usize,
    /// The tables that the side probes.
    pub syzygy: Option<Syzygy>,
    /// What reports say of the tables.
    pub syzygy_label: String,
}

impl EngineConfig {
    /// A side with what sides have unless told otherwise, and with a name.
    pub open spec fn plain(&self, name: Seq<char>) -> bool {
        &&& self.name@ == name
        &&& self.params_label@ == "eval-params"@
        &&& self.threads == 1
        &&& self.hash_mb == 16
        &&& self.syzygy is None
        &&& self.syzygy_label@ == "none"@
    }

    /// A side with the usual parameters.
    pub fn baseline(name: &str) -> (r: EngineConfig)
        ensures
            r.plain(name@),
            params::is_baseline(r.params),
    {
        EngineConfig::new(name, EvalParams::default())
    }

    /// A side with parameters.
    pub fn new(name: &str, params: EvalParams) -> (r: EngineConfig)
        ensures
            r.plain(name@),
            r.params == params,
    {
        EngineConfig {
            name: name.to_owned(),
            params,
            params_label: "eval-params".to_owned(),
            threads: 1,
            hash_mb: 16,
            syzygy: None,
            syzygy_label: "none".to_owned(),
        }
    }
}

/// The engine that the results of a match speak for.
#[derive(Debug, Clone, Copy, PartialEq, Eq, Structural)]
pub enum CandidateSide {
    /// The first engine, which has White in the first game.
    White,
    /// The second engine.
    Black,
}

impl CandidateSide {
    /// The name of the side.
    pub open spec fn word(self) -> Seq<char> {
        match self {
            CandidateSide::White => "white"@,
            CandidateSide::Black => "black"@,
        }
    }

    /// The name of the side.
    pub fn label(self) -> (r: &'static str)
        ensures
            r@ == self.word(),
    {
        match self {
            CandidateSide::White => "white",
            CandidateSide::Black => "black",
        }
    }
}

/// A match.
#[derive(Debug)]
pub struct MatchConfig {
    /// How many games are played; at most so many where a test can end the match.
    pub games: usize,
    /// The seed of the order of openings and of the games.
    pub seed: u64,
    /// The first engine.
    pub white: EngineConfig,
    /// The second engine.
    pub black: EngineConfig,
    pub tc: TimeControl,
    /// Whether the engines change colours after each game.
    pub alternate_colors: bool,
    /// How many plies a game has before it is a draw.
    pub max_plies: usize,
    /// Whether a game ends when a search proves a mate.
    pub adjudicate_mate: bool,
    /// How many games run at once.
    pub parallel: usize,
    pub candidate: CandidateSide,
    /// The name of the openings.
    pub suite_name: String,
}

impl Default for MatchConfig {
    fn default() -> (r: Self)
        ensures
            r.games == 10,
            r.seed == 1,
            r.white.plain("baseline"@),
            params::is_baseline(r.white.params),
            r.black.plain("baseline"@),
            params::is_baseline(r.black.params),
            r.tc == TimeControl::Depth(6),
            r.alternate_colors,
            r.max_plies == 240,
            r.adjudicate_mate,
            r.parallel == 1,
            r.candidate == CandidateSide::White,
            r.suite_name@ == "classical-v1"@,
    {
        MatchConfig {
            games: 10,
            seed: 1,
            white: EngineConfig::baseline("baseline"),
            black: EngineConfig::baseline("baseline"),
            tc: TimeControl::Depth(6),
            alternate_colors: true,
            max_plies: 240,
            adjudicate_mate: true,
            parallel: 1,
            candidate: CandidateSide::White,
            suite_name: "classical-v1".to_owned(),
        }
    }
}

/// What a report says of the tables at a path: the number of files and pieces, or
/// why there are none.
pub open spec fn tables_text(path: Seq<char>, found: TablePath, max_pieces: int) -> Seq<char> {
    let at = text::trimmed(path);
    let l = endgame::loading(at, found, max_pieces);
    if at.len() == 0 {
        "none"@
    } else if l.0 > 0 {
        text::decimal(l.0) + " files (max "@ + text::decimal(l.1) + " pieces) from "@ + at
    } else {
        match l.2 {
            Some(w) => w,
            None => "load failed"@,
        }
    }
}

/// The tables for a side, from what was found at a path, and what a report says of
/// them. A path that leads to no tables is no error.
pub fn load_syzygy(path: Option<&str>, found: TablePath, max_pieces: usize) -> (r: (
    Option<Syzygy>,
    String,
))
    ensures
        path is None ==> r.0 is None && r.1@ == "none"@,
        path matches Some(p) ==> r.1@ == tables_text(p@, found, max_pieces as int),
        path matches Some(p) ==> (r.0 is Some <==> endgame::loading(
            text::trimmed(p@),
            found,
            max_pieces as int,
        ).0 > 0),
        path matches Some(p) ==> (r.0 matches Some(t) ==> t@ == (Tables {
            loaded: true,
            files: endgame::loading(text::trimmed(p@), found, max_pieces as int).0,
            max_pieces: endgame::loading(text::trimmed(p@), found, max_pieces as int).1,
            ..endgame::inert()
        })),
{
    let p: &str = match path {
        None => {
            return (None, "none".to_owned());
        },
        Some(p) => p,
    };
    let at: &str = text::trim(p);
    proof {
        text::lemma_trimmed_again(p@);
    }
    if at.unicode_len() == 0 {
        return (None, "none".to_owned());
    }
    let (tables, report): (Syzygy, LoadReport) = Syzygy::load(at, found, max_pieces);
    if tables.is_loaded() {
        let mut label: String = String::new();
        text::append_decimal(&mut label, report.files as u64);
        label.append(" files (max ");
        text::append_decimal(&mut label, report.max_pieces as u64);
        label.append(" pieces) from ");
        label.append(at);
        proof {
            assert(Seq::<char>::empty() + text::decimal(report.files as int) =~= text::decimal(
                report.files as int,
            ));
        }
        (Some(tables), label)
    } else if report.warnings.len() > 0 {
        (None, report.warnings[0].clone())
    } else {
        (None, "load failed".to_owned())
    }
}

// --- games ----------------------------------------------------------------------------------------

/// Why a game ended.
#[derive(Debug, Clone, Copy, PartialEq, Eq, Structural)]
pub enum Termination {
    Checkmate,
    Stalemate,
    /// A hundred plies went by without a capture or a pawn move.
    FiftyMove,
    /// The position came for the third time.
    Threefold,
    /// Neither side can mate.
    InsufficientMaterial,
    /// A search proved a mate.
    AdjudicatedMate,
    /// The game was too long.
    MovesLimit,
    /// An engine gave no move.
    Aborted,
}

impl Termination {
    /// The name of the reason.
    pub open spec fn word(self) -> Seq<char> {
        match self {
            Termination::Checkmate => "checkmate"@,
            Termination::Stalemate => "stalemate"@,
            Termination::FiftyMove => "fifty-move"@,
            Termination::Threefold => "threefold"@,
            Termination::InsufficientMaterial => "insufficient-material"@,
            Termination::AdjudicatedMate => "adjudicated-mate"@,
            Termination::MovesLimit => "moves-limit"@,
            Termination::Aborted => "aborted"@,
        }
    }

    /// The name of the reason.
    pub fn label(self) -> (r: &'static str)
        ensures
            r@ == self.word(),
    {
        match self {
            Termination::Checkmate => "checkmate",
            Termination::Stalemate => "stalemate",
            Termination::FiftyMove => "fifty-move",
            Termination::Threefold => "threefold",
            Termination::InsufficientMaterial => "insufficient-material",
            Termination::AdjudicatedMate => "adjudicated-mate",
            Termination::MovesLimit => "moves-limit",
            Termination::Aborted => "aborted",
        }
    }
}

/// A game that was played.
#[derive(Debug)]
pub struct PlayedGame {
    /// The number of the game, from 0.
    pub game_no: usize,
    /// The opening, by its place in the suite.
    pub opening_idx: usize,
    /// The seed of the game.
    pub seed: u64,
    /// Whether the first engine had White.
    pub white_was_a: bool,
    pub opening_name: String,
    pub fen_after_opening: String,
    /// The moves of the opening and those of the engines.
    pub moves: Vec<RawMove>,
    /// The result from White's side.
    pub outcome: Outcome,
    pub termination: Termination,
}

/// A game as reports hold it.
#[derive(Debug, Clone, PartialEq, Eq)]
pub struct StdGame {
    pub game_no: usize,
    pub opening_idx: usize,
    pub seed: u64,
    pub white_was_a: bool,
    pub opening: String,
    pub fen_after_opening: String,
    /// The moves as UCI writes them.
    pub moves: Vec<String>,
    /// The result from White's side, as PGN writes it.
    pub outcome: String,
    pub termination: String,
}

/// The move as UCI writes it.
pub open spec fn uci_of() -> spec_fn(RawMove) -> Seq<char> {
    |m: RawMove| m.uci_spec()
}

impl PlayedGame {
    /// The game as reports hold it.
    pub open spec fn told(&self, g: StdGame) -> bool {
        &&& g.game_no == self.game_no
        &&& g.opening_idx == self.opening_idx
        &&& g.seed == self.seed
        &&& g.white_was_a == self.white_was_a
        &&& g.opening@ == self.opening_name@
        &&& g.fen_after_opening@ == self.fen_after_opening@
        &&& text::shown(g.moves@) == self.moves@.map_values(uci_of())
        &&& g.outcome@ == self.outcome.pgn()
        &&& g.termination@ == self.termination.word()
    }

    /// The game as reports hold it.
    pub fn to_std(&self) -> (r: StdGame)
        ensures
            self.told(r),
    {
        let mut moves: Vec<String> = Vec::new();
        let mut i: usize = 0;
        while i < self.moves.len()
            invariant
                i <= self.moves@.len(),
                moves@.len() == i,
                forall|k: int| 0 <= k < i ==> (#[trigger] moves@[k])@ == self.moves@[k].uci_spec(),
            decreases self.moves@.len() - i,
        {
            moves.push(self.moves[i].to_uci());
            i = i + 1;
        }
        assert(text::shown(moves@) =~= self.moves@.map_values(uci_of()));
        StdGame {
            game_no: self.game_no,
            opening_idx: self.opening_idx,
            seed: self.seed,
            white_was_a: self.white_was_a,
            opening: self.opening_name.clone(),
            fen_after_opening: self.fen_after_opening.clone(),
            moves,
            outcome: self.outcome.to_pgn().to_owned(),
            termination: self.termination.label().to_owned(),
        }
    }
}

/// The seed of a game: the number that a stream from the seed of the match gives
/// after those of the earlier games.
pub fn game_seed(match_seed: u64, game: usize) -> (r: u64)
    requires
        game < u64::MAX,
    ensures
        r == book::mixed(book::advanced(match_seed, (game + 1) as nat)),
{
    let z: u64 = match_seed.wrapping_add(book::GOLDEN.wrapping_mul(game as u64 + 1));
    proof {
        book::law_advanced(match_seed, (game + 1) as nat);
        lemma_far(match_seed as int, book::GOLDEN * (game + 1));
    }
    book::splitmix_mix(z)
}

proof fn lemma_far(a: int, p: int)
    requires
        0 <= p,
    ensures
        (a + p % 0x1_0000_0000_0000_0000) % 0x1_0000_0000_0000_0000 == (a + p)
            % 0x1_0000_0000_0000_0000,
{
}

// --- results --------------------------------------------------------------------------------------

/// The result for the candidate of a game that ended so.
pub open spec fn result_for(outcome: Outcome, white_was_a: bool, candidate: CandidateSide) -> GameResult {
    if outcome == Outcome::Draw {
        GameResult::Draw
    } else if (outcome == Outcome::WhiteWin) == (white_was_a == (candidate
        == CandidateSide::White)) {
        GameResult::Win
    } else {
        GameResult::Loss
    }
}

fn result_of(outcome: Outcome, white_was_a: bool, candidate: CandidateSide) -> (r: GameResult)
    ensures
        r == result_for(outcome, white_was_a, candidate),
{
    let played_white: bool = white_was_a == (candidate == CandidateSide::White);
    match outcome {
        Outcome::Draw => GameResult::Draw,
        Outcome::WhiteWin => if played_white {
            GameResult::Win
        } else {
            GameResult::Loss
        },
        Outcome::BlackWin => if played_white {
            GameResult::Loss
        } else {
            GameResult::Win
        },
    }
}

/// The result of a game for the candidate, whichever colour it had.
pub fn candidate_result(g: &PlayedGame, candidate: CandidateSide) -> (r: GameResult)
    ensures
        r == result_for(g.outcome, g.white_was_a, candidate),
{
    result_of(g.outcome, g.white_was_a, candidate)
}

/// The outcome that a text stands for; what is no win is a draw.
pub open spec fn outcome_named(s: Seq<char>) -> Outcome {
    if s == "1-0"@ {
        Outcome::WhiteWin
    } else if s == "0-1"@ {
        Outcome::BlackWin
    } else {
        Outcome::Draw
    }
}

/// The outcome that a text stands for; what is no win is a draw.
pub fn outcome_of_str(s: &str) -> (r: Outcome)
    ensures
        r == outcome_named(s@),
{
    if text::same(s, "1-0") {
        Outcome::WhiteWin
    } else if text::same(s, "0-1") {
        Outcome::BlackWin
    } else {
        Outcome::Draw
    }
}

/// The result for the candidate of a game that a report holds.
pub open spec fn told_result(g: StdGame, candidate: CandidateSide) -> GameResult {
    result_for(outcome_named(g.outcome@), g.white_was_a, candidate)
}

/// The result for the candidate of a game that a report holds.
pub fn candidate_result_std(g: &StdGame, candidate: CandidateSide) -> (r: GameResult)
    ensures
        r == told_result(*g, candidate),
{
    result_of(outcome_of_str(g.outcome.as_str()), g.white_was_a, candidate)
}

/// Counts one more result.
pub fn apply_result(wdl: &mut Wdl, r: GameResult)
    requires
        old(wdl).total() < u64::MAX,
    ensures
        *final(wdl) == old(wdl).with(r),
        final(wdl).total() == old(wdl).total() + 1,
{
    match r {
        GameResult::Win => {
            wdl.wins = wdl.wins + 1;
        },
        GameResult::Draw => {
            wdl.draws = wdl.draws + 1;
        },
        GameResult::Loss => {
            wdl.losses = wdl.losses + 1;
        },
    }
}

/// The counts as reports hold them.
#[derive(Debug, Clone, Copy, PartialEq, Eq, Structural)]
pub struct WdlSer {
    pub wins: u64,
    pub draws: u64,
    pub losses: u64,
}

impl WdlSer {
    /// The counts as reports hold them.
    pub fn of(w: &Wdl) -> (r: WdlSer)
        ensures
            r == (WdlSer { wins: w.wins, draws: w.draws, losses: w.losses }),
    {
        WdlSer { wins: w.wins, draws: w.draws, losses: w.losses }
    }

    /// The counts.
    pub fn wdl(&self) -> (r: Wdl)
        ensures
            r == (Wdl { wins: self.wins, draws: self.draws, losses: self.losses }),
    {
        Wdl { wins: self.wins, draws: self.draws, losses: self.losses }
    }
}

/// One side as reports hold it.
#[derive(Debug)]
pub struct EngineSummary {
    pub name: String,
    pub params: String,
    pub threads: usize,
    pub hash_mb: usize,
    pub syzygy: String,
}

impl EngineSummary {
    /// The side as reports hold it.
    pub fn of(e: &EngineConfig) -> (r: EngineSummary)
        ensures
            r.name@ == e.name@,
            r.params@ == e.params_label@,
            r.threads == e.threads,
            r.hash_mb == e.hash_mb,
            r.syzygy@ == e.syzygy_label@,
    {
        EngineSummary {
            name: e.name.clone(),
            params: e.params_label.clone(),
            threads: e.threads,
            hash_mb: e.hash_mb,
            syzygy: e.syzygy_label.clone(),
        }
    }
}

/// The engine that played a match.
#[derive(Debug)]
pub struct SourceManifest {
    pub engine: String,
    pub version: String,
    /// The fingerprint of the sources.
    pub source_fingerprint: u64,
    /// `release` or `debug`.
    pub profile: String,
}

/// A game is over: how many were before it, of how many.
#[derive(Debug)]
pub struct MatchProgress<'a> {
    pub done: usize,
    pub total: usize,
    pub game: &'a StdGame,
}

// --- laws -----------------------------------------------------------------------------------------

/// What is a win for one engine is a loss for the other.
pub proof fn law_candidates_mirror(outcome: Outcome, white_was_a: bool)
    ensures
        result_for(outcome, white_was_a, CandidateSide::Black) == result_for(
            outcome,
            white_was_a,
            CandidateSide::White,
        ).turned(),
{
}

/// With the colours changed, the same outcome is the opposite result.
pub proof fn law_colours_mirror(outcome: Outcome, white_was_a: bool, candidate: CandidateSide)
    ensures
        result_for(outcome, !white_was_a, candidate) == result_for(
            outcome,
            white_was_a,
            candidate,
        ).turned(),
{
}

/// A game counts the same from a report as when it was played.
pub proof fn law_reports_keep_results(g: PlayedGame, s: StdGame, candidate: CandidateSide)
    requires
        g.told(s),
    ensures
        told_result(s, candidate) == result_for(g.outcome, g.white_was_a, candidate),
{
    reveal_strlit("1-0");
    reveal_strlit("0-1");
    reveal_strlit("1/2-1/2");
    assert("1-0"@.len() == 3 && "0-1"@.len() == 3 && "1/2-1/2"@.len() == 7);
    assert("1-0"@[0] == '1' && "0-1"@[0] == '0');
}

/// No two games of a match have the same seed.
pub proof fn law_seeds_distinct(match_seed: u64, g: usize, h: usize)
    requires
        g < h < u64::MAX,
    ensures
        book::mixed(book::advanced(match_seed, (g + 1) as nat)) != book::mixed(
            book::advanced(match_seed, (h + 1) as nat),
        ),
{
    let i = (g + 1) as nat;
    let j = (h + 1) as nat;
    if book::mixed(book::advanced(match_seed, i)) == book::mixed(book::advanced(match_seed, j)) {
        book::law_numbers_distinct(match_seed, i, j);
    }
}

/// An engine wins a game where the colour that it had wins, and loses it where the other
/// colour wins. The first engine had White where the game says so, the second otherwise.
pub proof fn law_the_winning_colour_wins(white_was_a: bool, candidate: CandidateSide)
    ensures
        ({
            let had_white = white_was_a == (candidate == CandidateSide::White);
            &&& had_white ==> result_for(Outcome::WhiteWin, white_was_a, candidate)
                == GameResult::Win && result_for(Outcome::BlackWin, white_was_a, candidate)
                == GameResult::Loss
            &&& !had_white ==> result_for(Outcome::WhiteWin, white_was_a, candidate)
                == GameResult::Loss && result_for(Outcome::BlackWin, white_was_a, candidate)
                == GameResult::Win
            &&& result_for(Outcome::Draw, white_was_a, candidate) == GameResult::Draw
        }),
{
}

/// Reports write a win of White as 1-0 and a win of Black as 0-1, and read nothing else as a
/// win.
pub proof fn law_results_are_written_so(o: Outcome, s: Seq<char>)
    ensures
        o.pgn() == "1-0"@ <==> o == Outcome::WhiteWin,
        o.pgn() == "0-1"@ <==> o == Outcome::BlackWin,
        o.pgn() == "1/2-1/2"@ <==> o == Outcome::Draw,
        outcome_named(o.pgn()) == o,
        s != "1-0"@ && s != "0-1"@ ==> outcome_named(s) == Outcome::Draw,
{
    reveal_strlit("1-0");
    reveal_strlit("0-1");
    reveal_strlit("1/2-1/2");
    assert("1-0"@.len() == 3 && "0-1"@.len() == 3 && "1/2-1/2"@.len() == 7);
    assert("1-0"@[0] == '1' && "0-1"@[0] == '0');
}

} // verus!
