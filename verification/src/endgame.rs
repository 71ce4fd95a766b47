//! Endgame tables: what a probe of them means for the search.
//!
//! The tables themselves lie on disk. Whoever reads them asks `in_range` first,
//! hands over what the tables answered and gets the outcome that the search may
//! rely on; the counters keep track of both.
use vstd::prelude::*;
use crate::text;
use crate::types;
use crate::types::RawMove;

verus! {

/// The score just above every win by the tables: far above any evaluation and
/// below every mate.
pub const TB_WIN: i32 = 20_000;

/// The score of a win that the fifty-move rule may still spoil.
pub const TB_CURSED: i32 = 10_000;

/// The outcome of a position, for the side to move.
#[derive(Debug, Clone, Copy, PartialEq, Eq, Structural)]
pub enum TbOutcome {
    Win,
    /// A win that the fifty-move rule may spoil.
    CursedWin,
    Draw,
    /// A loss that the fifty-move rule may save.
    BlessedLoss,
    Loss,
}

/// What the tables say of a position and its halfmove counter.
#[derive(Debug, Clone, Copy, PartialEq, Eq, Structural)]
pub enum AmbiguousWdl {
    Loss,
    MaybeLoss,
    BlessedLoss,
    Draw,
    CursedWin,
    MaybeWin,
    Win,
}

/// What the tables say of a position right after a capture or a pawn move.
#[derive(Debug, Clone, Copy, PartialEq, Eq, Structural)]
pub enum Wdl {
    Loss,
    BlessedLoss,
    Draw,
    CursedWin,
    Win,
}

/// The score of an outcome.
pub open spec fn score_of(wdl: TbOutcome) -> int {
    match wdl {
        TbOutcome::Win => 19_999,
        TbOutcome::CursedWin => 10_000,
        TbOutcome::Draw => 0,
        TbOutcome::BlessedLoss => -10_000,
        TbOutcome::Loss => -19_999,
    }
}

/// The score of an outcome.
pub fn wdl_score(wdl: TbOutcome) -> (r: i32)
    ensures
        r == score_of(wdl),
{
    match wdl {
        TbOutcome::Win => TB_WIN - 1,
        TbOutcome::CursedWin => TB_CURSED,
        TbOutcome::Draw => 0,
        TbOutcome::BlessedLoss => -TB_CURSED,
        TbOutcome::Loss => -(TB_WIN - 1),
    }
}

/// The outcome for the other side.
pub open spec fn reversed(wdl: TbOutcome) -> TbOutcome {
    match wdl {
        TbOutcome::Win => TbOutcome::Loss,
        TbOutcome::CursedWin => TbOutcome::BlessedLoss,
        TbOutcome::Draw => TbOutcome::Draw,
        TbOutcome::BlessedLoss => TbOutcome::CursedWin,
        TbOutcome::Loss => TbOutcome::Win,
    }
}

/// The score of an outcome is the negative of the score that the other side
/// sees, and never the score of a mate.
pub proof fn law_scores_negate(wdl: TbOutcome)
    ensures
        score_of(wdl) == -score_of(reversed(wdl)),
        -types::MATE_ZONE < score_of(wdl) < types::MATE_ZONE,
{
}

/// How good an outcome is.
pub open spec fn standing(wdl: TbOutcome) -> int {
    match wdl {
        TbOutcome::Win => 2,
        TbOutcome::CursedWin => 1,
        TbOutcome::Draw => 0,
        TbOutcome::BlessedLoss => -1,
        TbOutcome::Loss => -2,
    }
}

/// A better outcome scores higher.
pub proof fn law_scores_ordered(a: TbOutcome, b: TbOutcome)
    ensures
        score_of(a) < score_of(b) <==> standing(a) < standing(b),
{
}

impl TbOutcome {
    /// The score of the outcome.
    pub fn score(self) -> (r: i32)
        ensures
            r == score_of(self),
    {
        wdl_score(self)
    }
}

/// The outcome that may be relied on: what may be a win counts as one that the
/// fifty-move rule may spoil.
pub open spec fn settled(wdl: AmbiguousWdl) -> TbOutcome {
    match wdl {
        AmbiguousWdl::Win => TbOutcome::Win,
        AmbiguousWdl::MaybeWin => TbOutcome::CursedWin,
        AmbiguousWdl::CursedWin => TbOutcome::CursedWin,
        AmbiguousWdl::Draw => TbOutcome::Draw,
        AmbiguousWdl::BlessedLoss => TbOutcome::BlessedLoss,
        AmbiguousWdl::MaybeLoss => TbOutcome::BlessedLoss,
        AmbiguousWdl::Loss => TbOutcome::Loss,
    }
}

/// The outcome that may be relied on.
pub fn resolve_ambiguous(wdl: AmbiguousWdl) -> (r: TbOutcome)
    ensures
        r == settled(wdl),
{
    match wdl {
        AmbiguousWdl::Win => TbOutcome::Win,
        AmbiguousWdl::MaybeWin | AmbiguousWdl::CursedWin => TbOutcome::CursedWin,
        AmbiguousWdl::Draw => TbOutcome::Draw,
        AmbiguousWdl::BlessedLoss | AmbiguousWdl::MaybeLoss => TbOutcome::BlessedLoss,
        AmbiguousWdl::Loss => TbOutcome::Loss,
    }
}

/// The outcome without regard to the halfmove counter.
pub open spec fn plain(wdl: Wdl) -> TbOutcome {
    match wdl {
        Wdl::Loss => TbOutcome::Loss,
        Wdl::BlessedLoss => TbOutcome::BlessedLoss,
        Wdl::Draw => TbOutcome::Draw,
        Wdl::CursedWin => TbOutcome::CursedWin,
        Wdl::Win => TbOutcome::Win,
    }
}

/// The outcome without regard to the halfmove counter.
pub fn resolve_wdl(wdl: Wdl) -> (r: TbOutcome)
    ensures
        r == plain(wdl),
{
    match wdl {
        Wdl::Loss => TbOutcome::Loss,
        Wdl::BlessedLoss => TbOutcome::BlessedLoss,
        Wdl::Draw => TbOutcome::Draw,
        Wdl::CursedWin => TbOutcome::CursedWin,
        Wdl::Win => TbOutcome::Win,
    }
}

/// What loading the tables came to.
#[derive(Debug)]
pub struct LoadReport {
    /// The path as it was given.
    pub path: String,
    /// The table files that were found.
    pub files: usize,
    /// The most pieces that the tables cover; 0 without tables.
    pub max_pieces: usize,
    /// What went wrong without being fatal.
    pub warnings: Vec<String>,
}

/// What stands at a path.
pub enum TablePath {
    Missing,
    /// A directory, and the number of tables in it or why it cannot be read.
    Directory(Result<usize, String>),
    /// A file, or why it is no table.
    File(Result<(), String>),
}

/// The tables that are loaded, and what became of the probes so far.
#[derive(Debug)]
pub struct Syzygy {
    loaded: bool,
    max_pieces: usize,
    loaded_files: usize,
    probes: u64,
    hits: u64,
    wins: u64,
    draws: u64,
    losses: u64,
    cursed: u64,
}

/// The state of the tables and the counters.
pub struct Tables {
    pub loaded: bool,
    pub max_pieces: int,
    pub files: int,
    pub probes: int,
    pub hits: int,
    pub wins: int,
    pub draws: int,
    pub losses: int,
    pub cursed: int,
}

/// One more; a counter that is full begins again.
pub open spec fn next(n: int) -> int {
    if n == u64::MAX {
        0
    } else {
        n + 1
    }
}

/// The tables after counting a probe and its outcome.
pub open spec fn counted(t: Tables, outcome: Option<TbOutcome>) -> Tables {
    let p = Tables { probes: next(t.probes), ..t };
    match outcome {
        None => p,
        Some(wdl) => {
            let h = Tables { hits: next(p.hits), ..p };
            match wdl {
                TbOutcome::Win => Tables { wins: next(h.wins), ..h },
                TbOutcome::Draw => Tables { draws: next(h.draws), ..h },
                TbOutcome::Loss => Tables { losses: next(h.losses), ..h },
                _ => Tables { cursed: next(h.cursed), ..h },
            }
        },
    }
}

/// The tables after counting a probe that asks for more than the outcome.
pub open spec fn counted_plain(t: Tables, hit: bool) -> Tables {
    Tables {
        probes: next(t.probes),
        hits: if hit {
            next(t.hits)
        } else {
            t.hits
        },
        ..t
    }
}

/// No tables and no probes.
pub open spec fn inert() -> Tables {
    Tables {
        loaded: false,
        max_pieces: 0,
        files: 0,
        probes: 0,
        hits: 0,
        wins: 0,
        draws: 0,
        losses: 0,
        cursed: 0,
    }
}

/// The tables can cover a position with so many pieces.
pub open spec fn covers(t: Tables, pieces: int) -> bool {
    t.loaded && t.max_pieces != 0 && pieces <= t.max_pieces
}

/// The outcome of a probe: what the tables say with the halfmove counter, or
/// without it where they do not say that.
pub open spec fn outcome_of(exact: Option<AmbiguousWdl>, zeroing: Option<Wdl>) -> Option<TbOutcome> {
    match exact {
        Some(wdl) => Some(settled(wdl)),
        None => match zeroing {
            Some(wdl) => Some(plain(wdl)),
            None => None,
        },
    }
}

/// What loading comes to: the number of files, the most pieces and a warning.
pub open spec fn loading(path: Seq<char>, found: TablePath, max_pieces: int) -> (int, int, Option<
    Seq<char>,
>) {
    let at = text::trimmed(path);
    if at.len() == 0 {
        (0, 0, None)
    } else {
        match found {
            TablePath::Missing => (0, 0, Some("tablebase path not found: "@ + at)),
            TablePath::Directory(Ok(n)) => (n as int, max_pieces, None),
            TablePath::Directory(Err(e)) => (
                0,
                0,
                Some("cannot read tablebase directory "@ + at + ": "@ + e@),
            ),
            TablePath::File(Ok(_)) => (1, max_pieces, None),
            TablePath::File(Err(e)) => (0, 0, Some("cannot add tablebase file "@ + at + ": "@ + e@)),
        }
    }
}

fn message(front: &str, at: &str, error: &str) -> (r: String)
    ensures
        r@ == front@ + at@ + ": "@ + error@,
{
    let mut s: String = front.to_owned();
    s.append(at);
    s.append(": ");
    s.append(error);
    s
}

impl Syzygy {
    pub closed spec fn view(&self) -> Tables {
        Tables {
            loaded: self.loaded,
            max_pieces: self.max_pieces as int,
            files: self.loaded_files as int,
            probes: self.probes as int,
            hits: self.hits as int,
            wins: self.wins as int,
            draws: self.draws as int,
            losses: self.losses as int,
            cursed: self.cursed as int,
        }
    }

    /// No tables.
    pub fn none() -> (r: Syzygy)
        ensures
            r@ == inert(),
    {
        Syzygy {
            loaded: false,
            max_pieces: 0,
            loaded_files: 0,
            probes: 0,
            hits: 0,
            wins: 0,
            draws: 0,
            losses: 0,
            cursed: 0,
        }
    }

    /// Takes note of what was found at `path`, tables that cover `max_pieces`
    /// pieces among it. A path that leads to no tables is no error.
    pub fn load(path: &str, found: TablePath, max_pieces: usize) -> (r: (Syzygy, LoadReport))
        ensures
            ({
                let l = loading(path@, found, max_pieces as int);
                &&& r.0@ == (Tables {
                    loaded: l.0 > 0,
                    max_pieces: l.1,
                    files: l.0,
                    ..inert()
                })
                &&& r.1.path@ == path@
                &&& r.1.files == l.0
                &&& r.1.max_pieces == l.1
                &&& match l.2 {
                    Some(w) => r.1.warnings@.len() == 1 && r.1.warnings@[0]@ == w,
                    None => r.1.warnings@.len() == 0,
                }
            }),
    {
        let at: &str = text::trim(path);
        let mut warnings: Vec<String> = Vec::new();
        let mut files: usize = 0;
        let mut most: usize = 0;
        if at.unicode_len() > 0 {
            match found {
                TablePath::Missing => {
                    let mut s: String = "tablebase path not found: ".to_owned();
                    s.append(at);
                    warnings.push(s);
                },
                TablePath::Directory(Ok(n)) => {
                    files = n;
                    most = max_pieces;
                },
                TablePath::Directory(Err(e)) => {
                    warnings.push(message("cannot read tablebase directory ", at, e.as_str()));
                },
                TablePath::File(Ok(_)) => {
                    files = 1;
                    most = max_pieces;
                },
                TablePath::File(Err(e)) => {
                    warnings.push(message("cannot add tablebase file ", at, e.as_str()));
                },
            }
        }
        let report = LoadReport { path: path.to_owned(), files, max_pieces: most, warnings };
        let tables = Syzygy {
            loaded: files > 0,
            max_pieces: most,
            loaded_files: files,
            probes: 0,
            hits: 0,
            wins: 0,
            draws: 0,
            losses: 0,
            cursed: 0,
        };
        (tables, report)
    }

    pub fn is_loaded(&self) -> (r: bool)
        ensures
            r == self@.loaded,
    {
        self.loaded
    }

    pub fn max_pieces(&self) -> (r: usize)
        ensures
            r == self@.max_pieces,
    {
        self.max_pieces
    }

    pub fn loaded_files(&self) -> (r: usize)
        ensures
            r == self@.files,
    {
        self.loaded_files
    }

    pub fn probes(&self) -> (r: u64)
        ensures
            r == self@.probes,
    {
        self.probes
    }

    pub fn hits(&self) -> (r: u64)
        ensures
            r == self@.hits,
    {
        self.hits
    }

    pub fn wins(&self) -> (r: u64)
        ensures
            r == self@.wins,
    {
        self.wins
    }

    pub fn draws(&self) -> (r: u64)
        ensures
            r == self@.draws,
    {
        self.draws
    }

    pub fn losses(&self) -> (r: u64)
        ensures
            r == self@.losses,
    {
        self.losses
    }

    pub fn cursed(&self) -> (r: u64)
        ensures
            r == self@.cursed,
    {
        self.cursed
    }

    /// Whether the tables can cover a position with so many pieces.
    pub fn in_range(&self, pieces: usize) -> (r: bool)
        ensures
            r == covers(self@, pieces as int),
    {
        self.loaded && self.max_pieces != 0 && pieces <= self.max_pieces
    }

    /// The outcome of a position with so many pieces, for the side to move;
    /// `exact` is what the tables say with its halfmove counter, `zeroing` what
    /// they say without. Nothing is counted out of range.
    pub fn probe_wdl(
        &mut self,
        pieces: usize,
        exact: Option<AmbiguousWdl>,
        zeroing: Option<Wdl>,
    ) -> (r: Option<TbOutcome>)
        ensures
            !covers(old(self)@, pieces as int) ==> r is None && final(self)@ == old(self)@,
            covers(old(self)@, pieces as int) ==> r == outcome_of(exact, zeroing) && final(self)@
                == counted(old(self)@, r),
    {
        if !self.in_range(pieces) {
            return None;
        }
        self.probes = self.probes.wrapping_add(1);
        let result: Option<TbOutcome> = match exact {
            Some(wdl) => Some(resolve_ambiguous(wdl)),
            None => match zeroing {
                Some(wdl) => Some(resolve_wdl(wdl)),
                None => None,
            },
        };
        self.count(result);
        result
    }

    /// The distance to the next capture or pawn move, as the tables say it.
    pub fn probe_dtz(&mut self, pieces: usize, dtz: Option<i32>) -> (r: Option<i32>)
        ensures
            !covers(old(self)@, pieces as int) ==> r is None && final(self)@ == old(self)@,
            covers(old(self)@, pieces as int) ==> r == dtz && final(self)@ == counted_plain(
                old(self)@,
                dtz is Some,
            ),
    {
        if !self.in_range(pieces) {
            return None;
        }
        self.probes = self.probes.wrapping_add(1);
        if dtz.is_some() {
            self.hits = self.hits.wrapping_add(1);
        }
        dtz
    }

    /// The best move and the distance after it, as the tables say it.
    pub fn root_best_move(&mut self, pieces: usize, best: Option<(RawMove, i32)>) -> (r: Option<
        (RawMove, i32),
    >)
        ensures
            !covers(old(self)@, pieces as int) ==> r is None && final(self)@ == old(self)@,
            covers(old(self)@, pieces as int) ==> r == best && final(self)@ == counted_plain(
                old(self)@,
                best is Some,
            ),
    {
        if !self.in_range(pieces) {
            return None;
        }
        self.probes = self.probes.wrapping_add(1);
        if best.is_some() {
            self.hits = self.hits.wrapping_add(1);
        }
        best
    }

    fn count(&mut self, outcome: Option<TbOutcome>)
        ensures
            final(self)@ == (Tables { probes: old(self)@.probes, ..counted(old(self)@, outcome) }),
    {
        match outcome {
            Some(wdl) => {
                self.hits = self.hits.wrapping_add(1);
                match wdl {
                    TbOutcome::Win => {
                        self.wins = self.wins.wrapping_add(1);
                    },
                    TbOutcome::Draw => {
                        self.draws = self.draws.wrapping_add(1);
                    },
                    TbOutcome::Loss => {
                        self.losses = self.losses.wrapping_add(1);
                    },
                    TbOutcome::CursedWin | TbOutcome::BlessedLoss => {
                        self.cursed = self.cursed.wrapping_add(1);
                    },
                }
            },
            None => {},
        }
    }
}

impl Default for Syzygy {
    fn default() -> (r: Self)
        ensures
            r@ == inert(),
    {
        Syzygy::none()
    }
}

// --- laws -----------------------------------------------------------------------------------------

/// A win is worth more than any evaluation that is not a mate, whatever the fifty-move rule
/// may do, and a loss less; a draw is worth nothing.
pub proof fn law_wins_are_wins(wdl: TbOutcome)
    ensures
        score_of(wdl) >= 10_000 <==> wdl == TbOutcome::Win || wdl == TbOutcome::CursedWin,
        score_of(wdl) <= -10_000 <==> wdl == TbOutcome::Loss || wdl == TbOutcome::BlessedLoss,
        score_of(wdl) == 0 <==> wdl == TbOutcome::Draw,
        score_of(TbOutcome::CursedWin) < score_of(TbOutcome::Win) < types::MATE_ZONE,
{
}

/// How good an answer of the tables is.
pub open spec fn grade(wdl: AmbiguousWdl) -> int {
    match wdl {
        AmbiguousWdl::Win => 3,
        AmbiguousWdl::MaybeWin => 2,
        AmbiguousWdl::CursedWin => 1,
        AmbiguousWdl::Draw => 0,
        AmbiguousWdl::BlessedLoss => -1,
        AmbiguousWdl::MaybeLoss => -2,
        AmbiguousWdl::Loss => -3,
    }
}

/// A better answer is never a worse outcome, a win or a loss is sure only where the answer is,
/// and neither becomes a draw.
pub proof fn law_answers_are_settled(a: AmbiguousWdl, b: AmbiguousWdl)
    ensures
        grade(a) <= grade(b) ==> score_of(settled(a)) <= score_of(settled(b)),
        settled(a) == TbOutcome::Win <==> a == AmbiguousWdl::Win,
        settled(a) == TbOutcome::Loss <==> a == AmbiguousWdl::Loss,
        grade(a) > 0 <==> score_of(settled(a)) > 0,
        grade(a) < 0 <==> score_of(settled(a)) < 0,
{
}

/// Without the halfmove counter an answer is an outcome as it stands.
pub proof fn law_plain_answers(w: Wdl)
    ensures
        w == Wdl::Win <==> plain(w) == TbOutcome::Win,
        w == Wdl::CursedWin <==> plain(w) == TbOutcome::CursedWin,
        w == Wdl::Draw <==> plain(w) == TbOutcome::Draw,
        w == Wdl::BlessedLoss <==> plain(w) == TbOutcome::BlessedLoss,
        w == Wdl::Loss <==> plain(w) == TbOutcome::Loss,
{
}

/// What the tables say with the halfmove counter goes before what they say without, and where
/// they say neither there is no outcome.
pub proof fn law_exact_answers_first(exact: Option<AmbiguousWdl>, zeroing: Option<Wdl>)
    ensures
        outcome_of(exact, zeroing) is None <==> exact is None && zeroing is None,
        exact matches Some(a) ==> outcome_of(exact, zeroing) == Some(settled(a)),
        exact is None ==> (zeroing matches Some(w) ==> outcome_of(exact, zeroing) == Some(plain(w))),
{
}

/// Every probe counts once, a hit counts once more and its outcome once, in its own place.
pub proof fn law_probes_are_counted(t: Tables, outcome: Option<TbOutcome>)
    requires
        0 <= t.probes < u64::MAX,
        0 <= t.hits < u64::MAX,
        0 <= t.wins < u64::MAX,
        0 <= t.draws < u64::MAX,
        0 <= t.losses < u64::MAX,
        0 <= t.cursed < u64::MAX,
    ensures
        ({
            let n = counted(t, outcome);
            &&& n.probes == t.probes + 1
            &&& outcome is Some <==> n.hits == t.hits + 1
            &&& outcome is None <==> n.hits == t.hits
            &&& outcome == Some(TbOutcome::Win) <==> n.wins == t.wins + 1
            &&& outcome == Some(TbOutcome::Draw) <==> n.draws == t.draws + 1
            &&& outcome == Some(TbOutcome::Loss) <==> n.losses == t.losses + 1
            &&& n.wins + n.draws + n.losses + n.cursed - n.hits == t.wins + t.draws + t.losses
                + t.cursed - t.hits
            &&& n.loaded == t.loaded && n.max_pieces == t.max_pieces && n.files == t.files
        }),
{
}

/// Tables cover positions with few enough pieces, and without tables there are none.
pub proof fn law_coverage(t: Tables, pieces: int)
    requires
        0 <= pieces,
    ensures
        covers(t, pieces + 1) ==> covers(t, pieces),
        !t.loaded ==> !covers(t, pieces),
        t.loaded && t.max_pieces > 0 ==> covers(t, t.max_pieces) && !covers(t, t.max_pieces + 1),
        !covers(inert(), pieces),
{
}

} // verus!
