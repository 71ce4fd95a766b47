//! One game: whose turn it is, when it is over, and what a search's answer does.
use vstd::prelude::*;
use crate::board::Position;
use crate::board::rules::{Facts, Step};
use crate::board::rules;
use crate::matchplay::clock::{Clock, TimeControl, TimeLimit};
use crate::matchplay::clock;
use crate::matchplay::runner::Assignment;
use crate::matchplay::{self, CandidateSide, PlayedGame, StdGame, Termination};
use crate::nnue::types::Color;
use crate::openings::OpeningSuite;
use crate::openings;
use crate::rating::Outcome;
use crate::text;
use crate::types::RawMove;
use crate::types;

verus! {

// --- endings --------------------------------------------------------------------------------------

/// How often a hash is among others.
pub open spec fn times(history: Seq<u64>, hash: u64) -> int
    decreases history.len(),
{
    if history.len() == 0 {
        0
    } else {
        times(history.drop_last(), hash) + (if history.last() == hash {
            1int
        } else {
            0
        })
    }
}

fn count(history: &Vec<u64>, hash: u64) -> (r: usize)
    ensures
        r == times(history@, hash),
{
    let mut n: usize = 0;
    let mut i: usize = 0;
    assert(history@.take(0) =~= Seq::<u64>::empty());
    while i < history.len()
        invariant
            i <= history@.len(),
            n <= i,
            n == times(history@.take(i as int), hash),
        decreases history@.len() - i,
    {
        assert(history@.take(i + 1).drop_last() =~= history@.take(i as int));
        if history[i] == hash {
            n = n + 1;
        }
        i = i + 1;
    }
    assert(history@.take(i as int) =~= history@);
    n
}

/// Why a game is over at a position; nothing where it goes on. `history` holds the
/// hashes of the positions before it since the last move that cannot be taken
/// back.
pub open spec fn ending(text: Seq<char>, facts: Facts, history: Seq<u64>) -> Option<Termination> {
    if rules::legal_steps(text).len() == 0 {
        if rules::in_check(facts) {
            Some(Termination::Checkmate)
        } else {
            Some(Termination::Stalemate)
        }
    } else if facts.halfmoves >= 100 {
        Some(Termination::FiftyMove)
    } else if times(history, rules::hash_of(text)) >= 2 {
        Some(Termination::Threefold)
    } else if rules::bare(facts.board) {
        Some(Termination::InsufficientMaterial)
    } else {
        None
    }
}

/// Why a game is over at a position.
pub fn terminal_state(pos: &Position, history: &Vec<u64>) -> (r: Option<Termination>)
    ensures
        r == ending(pos.text_spec(), pos.facts_spec(), history@),
{
    if pos.legal_moves().is_empty() {
        if pos.is_check() {
            Some(Termination::Checkmate)
        } else {
            Some(Termination::Stalemate)
        }
    } else if pos.halfmoves() >= 100 {
        Some(Termination::FiftyMove)
    } else if count(history, pos.hash()) >= 2 {
        Some(Termination::Threefold)
    } else if pos.is_insufficient_material() {
        Some(Termination::InsufficientMaterial)
    } else {
        None
    }
}

/// The outcome where one side wins.
pub open spec fn won_by(winner: Color) -> Outcome {
    match winner {
        Color::White => Outcome::WhiteWin,
        Color::Black => Outcome::BlackWin,
    }
}

/// The outcome of a game that is over at a position: a mated side has lost, and
/// anything else is a draw.
pub open spec fn outcome_at(t: Termination, turn: Color) -> Outcome {
    if t == Termination::Checkmate {
        won_by(turn.opposite())
    } else {
        Outcome::Draw
    }
}

fn outcome(t: Termination, turn: Color) -> (r: Outcome)
    ensures
        r == outcome_at(t, turn),
{
    match t {
        Termination::Checkmate => match turn {
            Color::White => Outcome::BlackWin,
            Color::Black => Outcome::WhiteWin,
        },
        _ => Outcome::Draw,
    }
}

// --- playing --------------------------------------------------------------------------------------

/// The engine that moves: the first engine has White or it has Black.
pub open spec fn engine_for(white_was_a: bool, turn: Color) -> CandidateSide {
    if white_was_a == (turn == Color::White) {
        CandidateSide::White
    } else {
        CandidateSide::Black
    }
}

/// A game that is being played.
pub struct Game {
    pub pos: Position,
    /// The hashes of the positions since the last move that cannot be taken back.
    pub history: Vec<u64>,
    pub moves: Vec<RawMove>,
    pub clock_w: Clock,
    pub clock_b: Clock,
    pub tc: TimeControl,
    pub max_plies: usize,
    pub adjudicate_mate: bool,
    /// Whether the first engine has White.
    pub white_was_a: bool,
}

/// What comes next in a game.
#[derive(Debug, Clone, Copy, PartialEq, Eq, Structural)]
pub enum Turn {
    /// The game is over.
    Over { outcome: Outcome, termination: Termination },
    /// An engine looks for a move.
    Search { engine: CandidateSide, limits: TimeLimit },
}

/// What a search answers.
#[derive(Debug, Clone, Copy, PartialEq, Eq, Structural)]
pub struct SearchReply {
    /// The score for the side to move.
    pub score: i32,
    /// The move; the null move where there is none.
    pub best: RawMove,
    pub time_ms: u128,
}

/// What an answer does to a game.
#[derive(Debug, Clone, Copy, PartialEq, Eq, Structural)]
pub enum Answered {
    /// The move is played.
    Played,
    /// The game is over.
    Over { outcome: Outcome, termination: Termination },
    /// The move is illegal.
    Illegal(RawMove),
}

/// A search has proved a mate.
pub open spec fn mates(score: i32) -> bool {
    score >= types::MATE_ZONE || score <= -types::MATE_ZONE
}

impl Game {
    /// The clock of the side to move.
    pub open spec fn clock(&self) -> Clock {
        if self.pos.facts_spec().turn == Color::White {
            self.clock_w
        } else {
            self.clock_b
        }
    }

    /// The clocks of White and Black after a move of the side to move.
    pub open spec fn clocks_after(&self, time_ms: int) -> (Clock, Clock) {
        let spent = clock::ticked(self.clock(), time_ms, self.tc);
        if self.pos.facts_spec().turn == Color::White {
            (spent, self.clock_b)
        } else {
            (self.clock_w, spent)
        }
    }

    /// What comes next.
    pub open spec fn due(&self) -> Turn {
        let turn = self.pos.facts_spec().turn;
        match ending(self.pos.text_spec(), self.pos.facts_spec(), self.history@) {
            Some(t) => Turn::Over { outcome: outcome_at(t, turn), termination: t },
            None => if self.moves@.len() >= self.max_plies {
                Turn::Over { outcome: Outcome::Draw, termination: Termination::MovesLimit }
            } else {
                Turn::Search {
                    engine: engine_for(self.white_was_a, turn),
                    limits: clock::limits(
                        self.tc,
                        clock::budget(self.clock().remaining_ms as int, self.tc) as u64,
                    ),
                }
            },
        }
    }

    /// What an answer does: a mate that is proved decides the game where that is
    /// agreed, and no move ends it.
    pub open spec fn verdict(&self, r: SearchReply) -> Answered {
        let turn = self.pos.facts_spec().turn;
        if self.adjudicate_mate && mates(r.score) {
            Answered::Over {
                outcome: if r.score > 0 {
                    won_by(turn)
                } else {
                    won_by(turn.opposite())
                },
                termination: Termination::AdjudicatedMate,
            }
        } else if r.best == RawMove::made(0, 0, 0) {
            Answered::Over { outcome: Outcome::Draw, termination: Termination::Aborted }
        } else if !self.pos.legal().contains(r.best) {
            Answered::Illegal(r.best)
        } else {
            Answered::Played
        }
    }

    /// The game as it was begun, but for its position, moves and clocks.
    pub open spec fn same_terms(&self, other: Game) -> bool {
        &&& self.tc == other.tc
        &&& self.max_plies == other.max_plies
        &&& self.adjudicate_mate == other.adjudicate_mate
        &&& self.white_was_a == other.white_was_a
    }

    /// A game from an opening.
    pub fn begin(
        suite: &OpeningSuite,
        a: &Assignment,
        tc: &TimeControl,
        max_plies: usize,
        adjudicate_mate: bool,
    ) -> (r: Game)
        requires
            a.opening_idx < suite.size(),
        ensures
            ({
                let i = a.opening_idx as int;
                let root = openings::root_text(suite.root(i));
                &&& openings::goal(suite.root(i), suite.line(i)) == Some(r.pos.text_spec())
                &&& r.history@ == openings::window_of(root, suite.line(i))
                &&& r.moves@ == openings::moves_of(root, suite.line(i))
            }),
            r.pos.holds_facts(),
            r.clock_w == r.clock_b,
            r.clock_w.remaining_ms == clock::base(*tc) && r.clock_w.cycle_done == 0,
            r.tc == *tc,
            r.max_plies == max_plies,
            r.adjudicate_mate == adjudicate_mate,
            r.white_was_a == a.white_was_a,
    {
        let (pos, history, moves) = suite.position_of(a.opening_idx);
        Game {
            pos,
            history,
            moves,
            clock_w: Clock::new(tc),
            clock_b: Clock::new(tc),
            tc: *tc,
            max_plies,
            adjudicate_mate,
            white_was_a: a.white_was_a,
        }
    }

    /// What comes next.
    pub fn next(&self) -> (r: Turn)
        ensures
            r == self.due(),
    {
        let turn: Color = self.pos.turn();
        match terminal_state(&self.pos, &self.history) {
            Some(t) => {
                return Turn::Over { outcome: outcome(t, turn), termination: t };
            },
            None => {},
        }
        if self.moves.len() >= self.max_plies {
            return Turn::Over { outcome: Outcome::Draw, termination: Termination::MovesLimit };
        }
        let white: bool = turn == Color::White;
        let left: u64 = if white {
            self.clock_w.remaining_ms
        } else {
            self.clock_b.remaining_ms
        };
        let engine: CandidateSide = if self.white_was_a == white {
            CandidateSide::White
        } else {
            CandidateSide::Black
        };
        let time: u64 = clock::move_budget(left, &self.tc);
        Turn::Search { engine, limits: clock::time_limit_for(&self.tc, time) }
    }

    /// Takes a search's answer: the time goes off the clock, and the move is played
    /// unless the game is over.
    pub fn answer(&mut self, r: &SearchReply) -> (out: Answered)
        ensures
            out == old(self).verdict(*r),
            final(self).same_terms(*old(self)),
            (final(self).clock_w, final(self).clock_b) == old(self).clocks_after(r.time_ms as int),
            out == Answered::Played ==> {
                &&& final(self).pos.text_spec() == rules::text_after(
                    old(self).pos.text_spec(),
                    Step::of_spec(r.best),
                )
                &&& final(self).pos.holds_facts()
                &&& final(self).pos.facts_spec().turn == old(
                    self,
                ).pos.facts_spec().turn.opposite()
                &&& final(self).moves@ == old(self).moves@.push(r.best)
                &&& final(self).history@ == openings::noted(
                    old(self).history@,
                    rules::hash_of(old(self).pos.text_spec()),
                    final(self).pos.facts_spec().halfmoves,
                )
            },
            out != Answered::Played ==> {
                &&& final(self).pos == old(self).pos
                &&& final(self).moves@ == old(self).moves@
                &&& final(self).history@ == old(self).history@
            },
    {
        let white: bool = self.pos.turn() == Color::White;
        let tc: TimeControl = self.tc;
        if white {
            self.clock_w.tick(r.time_ms, &tc);
        } else {
            self.clock_b.tick(r.time_ms, &tc);
        }
        if self.adjudicate_mate && types::is_mate(r.score) {
            let outcome: Outcome = if (r.score > 0) == white {
                Outcome::WhiteWin
            } else {
                Outcome::BlackWin
            };
            return Answered::Over { outcome, termination: Termination::AdjudicatedMate };
        }
        if r.best == RawMove::null() {
            return Answered::Over { outcome: Outcome::Draw, termination: Termination::Aborted };
        }
        if !self.pos.raw_move_legal(r.best) {
            return Answered::Illegal(r.best);
        }
        let child: Position = self.pos.make_child(r.best);
        openings::record(&mut self.history, &self.pos, &child);
        self.moves.push(r.best);
        self.pos = child;
        Answered::Played
    }

    /// The game as it was played.
    pub fn played(self, suite: &OpeningSuite, a: &Assignment, outcome: Outcome, termination: Termination) -> (r:
        PlayedGame)
        requires
            a.opening_idx < suite.size(),
        ensures
            r.game_no == a.game_no,
            r.opening_idx == a.opening_idx,
            r.seed == a.seed,
            r.white_was_a == self.white_was_a,
            r.opening_name@ == suite.titles()[a.opening_idx as int],
            r.fen_after_opening@ == suite.texts()[a.opening_idx as int],
            r.moves@ == self.moves@,
            r.outcome == outcome,
            r.termination == termination,
    {
        PlayedGame {
            game_no: a.game_no,
            opening_idx: a.opening_idx,
            seed: a.seed,
            white_was_a: self.white_was_a,
            opening_name: suite.entry(a.opening_idx).name.clone(),
            fen_after_opening: suite.fen_of(a.opening_idx).to_owned(),
            moves: self.moves,
            outcome,
            termination,
        }
    }
}

// --- records --------------------------------------------------------------------------------------

/// A game with its moves and its result, as tuning reads it.
#[derive(Debug)]
pub struct GameRecord {
    pub moves: Vec<RawMove>,
    pub outcome: Outcome,
    pub termination: Termination,
    pub opening: String,
}

/// The game that a report holds, replayed from the starting position; nothing where
/// a move is illegal.
pub fn std_game_record(g: &StdGame) -> (r: Option<GameRecord>)
    ensures
        r is Some <==> openings::reached(openings::start_text(), text::shown(g.moves@)) is Some,
        r matches Some(x) ==> {
            &&& x.moves@ == openings::moves_of(openings::start_text(), text::shown(g.moves@))
            &&& x.outcome == matchplay::outcome_named(g.outcome@)
            &&& x.termination == Termination::Aborted
            &&& x.opening@ == g.opening@
        },
{
    let ghost all = text::shown(g.moves@);
    let ghost t = openings::start_text();
    let mut pos: Position = Position::startpos();
    let mut moves: Vec<RawMove> = Vec::new();
    let mut n: usize = 0;
    assert(all.take(0) =~= Seq::<Seq<char>>::empty());
    while n < g.moves.len()
        invariant
            n <= g.moves@.len(),
            all == text::shown(g.moves@),
            t == openings::start_text(),
            openings::reached(t, all.take(n as int)) == Some(pos.text_spec()),
            moves@ == openings::moves_of(t, all.take(n as int)),
        decreases g.moves@.len() - n,
    {
        proof {
            assert(all.take(n + 1).drop_last() =~= all.take(n as int));
            assert(all.take(n + 1).last() == g.moves@[n as int]@);
        }
        match pos.play_uci(g.moves[n].as_str()) {
            Ok((child, m)) => {
                moves.push(m);
                pos = child;
            },
            Err(_e) => {
                proof {
                    if openings::reached(t, all) is Some {
                        openings::lemma_prefix(t, all, n + 1);
                    }
                }
                return None;
            },
        }
        n = n + 1;
    }
    assert(all.take(n as int) =~= all);
    Some(
        GameRecord {
            moves,
            outcome: matchplay::outcome_of_str(g.outcome.as_str()),
            termination: Termination::Aborted,
            opening: g.opening.clone(),
        },
    )
}

// --- laws -----------------------------------------------------------------------------------------

/// A game goes on only while it is shorter than agreed, so that it comes to an end.
pub proof fn law_games_end(g: Game)
    requires
        g.due() is Search,
    ensures
        g.moves@.len() < g.max_plies,
{
}

/// The two engines move in turn, each with one colour for the whole game.
pub proof fn law_engines_take_turns(white_was_a: bool, turn: Color)
    ensures
        engine_for(white_was_a, turn) != engine_for(white_was_a, turn.opposite()),
        engine_for(white_was_a, turn) != engine_for(!white_was_a, turn),
{
}

/// A mate that a search proves is won by the side with the better score, whoever is
/// to move.
pub proof fn law_proved_mate(g: Game, r: SearchReply)
    requires
        g.adjudicate_mate,
        mates(r.score),
    ensures
        g.verdict(r) == (Answered::Over {
            outcome: won_by(
                if r.score > 0 {
                    g.pos.facts_spec().turn
                } else {
                    g.pos.facts_spec().turn.opposite()
                },
            ),
            termination: Termination::AdjudicatedMate,
        }),
{
}

/// A side that is mated has lost: with no legal move and the side to move in check, the
/// winner is the side that is not to move.
pub proof fn law_mate_is_lost(g: Game)
    requires
        rules::legal_steps(g.pos.text_spec()).len() == 0,
        rules::in_check(g.pos.facts_spec()),
    ensures
        g.pos.facts_spec().turn == Color::White ==> g.due() == (Turn::Over {
            outcome: Outcome::BlackWin,
            termination: Termination::Checkmate,
        }),
        g.pos.facts_spec().turn == Color::Black ==> g.due() == (Turn::Over {
            outcome: Outcome::WhiteWin,
            termination: Termination::Checkmate,
        }),
{
}

/// A game that ends on the board without a mate is drawn, whoever is to move: by stalemate,
/// after a hundred plies without a capture or a pawn move, by a position that comes for the
/// third time, or where neither side can mate. A game that is not over on the board goes on
/// until it is too long.
pub proof fn law_draws(g: Game)
    ensures
        ({
            let steps = rules::legal_steps(g.pos.text_spec()).len();
            let check = rules::in_check(g.pos.facts_spec());
            let quiet = g.pos.facts_spec().halfmoves;
            let hash = rules::hash_of(g.pos.text_spec());
            let again = exists|i: int, j: int|
                0 <= i < j < g.history@.len() && #[trigger] g.history@[i] == hash
                    && #[trigger] g.history@[j] == hash;
            let bare = rules::bare(g.pos.facts_spec().board);
            &&& steps == 0 && !check ==> g.due() == (Turn::Over {
                outcome: Outcome::Draw,
                termination: Termination::Stalemate,
            })
            &&& steps > 0 && quiet >= 100 ==> g.due() == (Turn::Over {
                outcome: Outcome::Draw,
                termination: Termination::FiftyMove,
            })
            &&& steps > 0 && quiet < 100 && again ==> g.due() == (Turn::Over {
                outcome: Outcome::Draw,
                termination: Termination::Threefold,
            })
            &&& steps > 0 && quiet < 100 && !again && bare ==> g.due() == (Turn::Over {
                outcome: Outcome::Draw,
                termination: Termination::InsufficientMaterial,
            })
            &&& steps > 0 && quiet < 100 && !again && !bare && g.moves@.len() >= g.max_plies
                ==> g.due() == (Turn::Over {
                outcome: Outcome::Draw,
                termination: Termination::MovesLimit,
            })
            &&& steps > 0 && quiet < 100 && !again && !bare && g.moves@.len() < g.max_plies
                ==> g.due() is Search
        }),
{
    lemma_times(g.history@, rules::hash_of(g.pos.text_spec()));
}

/// What is counted twice stands in two places.
proof fn lemma_times(h: Seq<u64>, x: u64)
    ensures
        times(h, x) >= 0,
        times(h, x) >= 1 <==> exists|i: int| 0 <= i < h.len() && #[trigger] h[i] == x,
        times(h, x) >= 2 <==> exists|i: int, j: int|
            0 <= i < j < h.len() && #[trigger] h[i] == x && #[trigger] h[j] == x,
    decreases h.len(),
{
    if h.len() > 0 {
        let r = h.drop_last();
        let n = h.len() - 1;
        lemma_times(r, x);
        if times(r, x) >= 1 {
            let i = choose|i: int| 0 <= i < r.len() && #[trigger] r[i] == x;
            assert(h[i] == x);
            if h[n] == x {
                assert(h[i] == x && h[n] == x);
            }
        }
        if times(r, x) >= 2 {
            let (i, j) = choose|i: int, j: int|
                0 <= i < j < r.len() && #[trigger] r[i] == x && #[trigger] r[j] == x;
            assert(h[i] == x && h[j] == x);
        }
        if exists|i: int| 0 <= i < h.len() && #[trigger] h[i] == x {
            let i = choose|i: int| 0 <= i < h.len() && #[trigger] h[i] == x;
            if i < n {
                assert(r[i] == x);
            }
        }
        if exists|i: int, j: int|
            0 <= i < j < h.len() && #[trigger] h[i] == x && #[trigger] h[j] == x {
            let (i, j) = choose|i: int, j: int|
                0 <= i < j < h.len() && #[trigger] h[i] == x && #[trigger] h[j] == x;
            assert(r[i] == x);
            if j < n {
                assert(r[j] == x);
            }
        }
    }
}

/// The first engine moves for the colour that it has: for White where it has White, and for
/// Black otherwise.
pub proof fn law_engines_have_their_colours(g: Game)
    requires
        g.due() is Search,
    ensures
        g.due()->engine == CandidateSide::White <==> (g.white_was_a <==> g.pos.facts_spec().turn
            == Color::White),
{
}

/// How long an engine thinks depends on its own clock alone.
pub proof fn law_own_clock_counts(g: Game, h: Game)
    requires
        g.pos == h.pos,
        g.history@ == h.history@,
        g.moves@ == h.moves@,
        g.tc == h.tc,
        g.max_plies == h.max_plies,
        g.white_was_a == h.white_was_a,
        g.pos.facts_spec().turn == Color::White ==> g.clock_w == h.clock_w,
        g.pos.facts_spec().turn == Color::Black ==> g.clock_b == h.clock_b,
    ensures
        g.due() == h.due(),
{
}

/// The time of a move is taken off the clock of the side that made it, and the other clock
/// stands still.
pub proof fn law_clocks_run_in_turn(g: Game, time_ms: int)
    ensures
        g.pos.facts_spec().turn == Color::White ==> g.clocks_after(time_ms) == (
            clock::ticked(g.clock_w, time_ms, g.tc),
            g.clock_b,
        ),
        g.pos.facts_spec().turn == Color::Black ==> g.clocks_after(time_ms) == (
            g.clock_w,
            clock::ticked(g.clock_b, time_ms, g.tc),
        ),
{
}

/// A mate that a search proves decides the game where that is agreed: for the side to move
/// where its score is high, and for the other side where it is low. Elsewhere the move
/// counts: none is given, or it is illegal, or it is played.
pub proof fn law_answers(g: Game, r: SearchReply)
    ensures
        ({
            let white = g.pos.facts_spec().turn == Color::White;
            let mate = g.adjudicate_mate && (r.score >= types::MATE_ZONE || r.score
                <= -types::MATE_ZONE);
            let null = r.best == RawMove::made(0, 0, 0);
            let legal = g.pos.legal().contains(r.best);
            &&& mate && (r.score > 0) == white ==> g.verdict(r) == (Answered::Over {
                outcome: Outcome::WhiteWin,
                termination: Termination::AdjudicatedMate,
            })
            &&& mate && (r.score > 0) != white ==> g.verdict(r) == (Answered::Over {
                outcome: Outcome::BlackWin,
                termination: Termination::AdjudicatedMate,
            })
            &&& !mate && null ==> g.verdict(r) == (Answered::Over {
                outcome: Outcome::Draw,
                termination: Termination::Aborted,
            })
            &&& !mate && !null && !legal ==> g.verdict(r) == Answered::Illegal(r.best)
            &&& !mate && !null && legal ==> g.verdict(r) == Answered::Played
        }),
{
}

} // verus!
