//! The command line of the match driver.
use vstd::prelude::*;
use crate::endgame::Syzygy;
use crate::evaluation::EvalParams;
use crate::matchplay::clock::TimeControl;
use crate::matchplay::{CandidateSide, EngineConfig, MatchConfig};
use crate::text;

verus! {

// --- values ---------------------------------------------------------------------------------------

/// The answer that a word gives.
pub open spec fn answer(v: Seq<char>) -> Option<bool> {
    let w = text::trimmed(v);
    if w == "on"@ || w == "true"@ || w == "yes"@ || w == "1"@ {
        Some(true)
    } else if w == "off"@ || w == "false"@ || w == "no"@ || w == "0"@ {
        Some(false)
    } else {
        None
    }
}

/// The answer that a word gives; `what` asks for it.
pub fn parse_bool(what: &str, v: &str) -> (r: Result<bool, CliError>)
    ensures
        r is Ok <==> answer(v@) is Some,
        r matches Ok(b) ==> answer(v@) == Some(b),
        r matches Err(e) ==> (e matches CliError::NotAnAnswer { what: w, got } && w@ == what@ && got@
            == text::trimmed(v@)),
{
    let w: &str = text::trim(v);
    if text::same(w, "on") || text::same(w, "true") || text::same(w, "yes") || text::same(w, "1") {
        Ok(true)
    } else if text::same(w, "off") || text::same(w, "false") || text::same(w, "no") || text::same(
        w,
        "0",
    ) {
        Ok(false)
    } else {
        Err(CliError::NotAnAnswer { what: what.to_owned(), got: w.to_owned() })
    }
}

/// The name of a side: the file of its parameters, or the baseline.
pub open spec fn side_name(path: Option<Seq<char>>) -> Seq<char> {
    match path {
        Some(p) => if p.len() == 0 {
            "baseline"@
        } else {
            p
        },
        None => "baseline"@,
    }
}

/// The characters of a text that may be missing.
pub open spec fn seen(t: Option<String>) -> Option<Seq<char>> {
    match t {
        Some(s) => Some(s@),
        None => None,
    }
}

/// The name of a side.
pub fn name_of(path: &Option<String>) -> (r: &str)
    ensures
        r@ == side_name(seen(*path)),
{
    match path {
        Some(p) => if p.as_str().unicode_len() == 0 {
            "baseline"
        } else {
            p.as_str()
        },
        None => "baseline",
    }
}

/// The value of a flag at a place, and where to read on: the flag and its value are
/// one argument with an equals sign, or two.
pub open spec fn value_at(args: Seq<Seq<char>>, i: int, name: Seq<char>) -> (Option<Seq<char>>, int) {
    if i >= args.len() {
        (None, i)
    } else if text::starts(args[i], name + "="@) {
        (Some(args[i].skip((name.len() + 1) as int)), i + 1)
    } else if args[i] == name {
        if i + 1 < args.len() {
            (Some(args[i + 1]), i + 2)
        } else {
            (None, i + 1)
        }
    } else {
        (None, i)
    }
}

/// The value of a flag at a place, which moves on behind what was read.
pub fn flag_value(args: &[String], i: &mut usize, name: &str) -> (r: Option<String>)
    ensures
        seen(r) == value_at(text::shown(args@), *old(i) as int, name@).0,
        *final(i) == value_at(text::shown(args@), *old(i) as int, name@).1,
{
    let ghost all = text::shown(args@);
    if *i >= args.len() {
        return None;
    }
    let arg: &str = args[*i].as_str();
    let mut front: String = name.to_owned();
    front.append("=");
    proof {
        reveal_strlit("=");
        assert(all[*i as int] == arg@);
    }
    match text::strip_prefix(arg, front.as_str()) {
        Some(v) => {
            *i = *i + 1;
            return Some(v.to_owned());
        },
        None => {},
    }
    if text::same(arg, name) {
        *i = *i + 1;
        if *i < args.len() {
            let v: String = args[*i].clone();
            *i = *i + 1;
            return Some(v);
        }
    }
    None
}

// --- time controls --------------------------------------------------------------------------------

/// What is wrong with a time control.
#[derive(Debug, Clone, Copy, PartialEq, Eq, Structural)]
pub enum TcFault {
    BadDepth,
    DepthTooSmall,
    BadMoveTime,
    MoveTimeNotPositive,
    /// It is none of the three kinds.
    Unknown,
    NoIncrement,
    BadMoveCount,
    BadBase,
    BadIncrement,
    /// Its numbers make no sense.
    BadNumbers,
}

/// A time control as it is written; seconds are still texts.
#[derive(Debug)]
pub enum TcText {
    Depth(i32),
    MoveTime(String),
    Classic { moves: u32, base: String, inc: String },
}

/// The parts of a time control.
pub enum TcShape {
    Depth(int),
    MoveTime(Seq<char>),
    Classic { moves: int, base: Seq<char>, inc: Seq<char> },
    Bad(TcFault),
}

impl TcText {
    pub open spec fn shape(&self) -> TcShape {
        match self {
            TcText::Depth(d) => TcShape::Depth(*d as int),
            TcText::MoveTime(s) => TcShape::MoveTime(s@),
            TcText::Classic { moves, base, inc } => TcShape::Classic {
                moves: *moves as int,
                base: base@,
                inc: inc@,
            },
        }
    }
}

/// The parts of the classic control: moves, base time and increment.
pub open spec fn classic_shape(t: Seq<char>) -> TcShape {
    match text::cut(t, '/') {
        None => TcShape::Bad(TcFault::Unknown),
        Some((moves, rest)) => match text::cut(rest, '+') {
            None => TcShape::Bad(TcFault::NoIncrement),
            Some((base, inc)) => match text::natural(text::trimmed(moves)) {
                Some(n) => if n <= u32::MAX {
                    TcShape::Classic {
                        moves: n,
                        base: text::trimmed(base),
                        inc: text::trimmed(inc),
                    }
                } else {
                    TcShape::Bad(TcFault::BadMoveCount)
                },
                None => TcShape::Bad(TcFault::BadMoveCount),
            },
        },
    }
}

/// The parts of a time control: `depth=8`, `movetime=0.5` or `40/10+0.1`.
pub open spec fn tc_shape(s: Seq<char>) -> TcShape {
    let t = text::trimmed(s);
    if text::starts(t, "depth"@) {
        match text::integer(text::past_equals(t.skip(5))) {
            Some(d) => if d < i32::MIN || d > i32::MAX {
                TcShape::Bad(TcFault::BadDepth)
            } else if d < 1 {
                TcShape::Bad(TcFault::DepthTooSmall)
            } else {
                TcShape::Depth(d)
            },
            None => TcShape::Bad(TcFault::BadDepth),
        }
    } else if text::starts(t, "movetime"@) {
        TcShape::MoveTime(text::past_equals(t.skip(8)))
    } else {
        classic_shape(t)
    }
}

/// Reads a time control.
pub fn parse_tc(s: &str) -> (r: Result<TcText, TcFault>)
    ensures
        r is Ok <==> !(tc_shape(s@) is Bad),
        r matches Ok(t) ==> t.shape() == tc_shape(s@),
        r matches Err(f) ==> tc_shape(s@) == TcShape::Bad(f),
{
    let t: &str = text::trim(s);
    proof {
        reveal_strlit("depth");
        reveal_strlit("movetime");
    }
    match text::strip_prefix(t, "depth") {
        Some(d) => {
            return match text::parse_i32(text::skip_equals(d)) {
                Some(n) => if n < 1 {
                    Err(TcFault::DepthTooSmall)
                } else {
                    Ok(TcText::Depth(n))
                },
                None => Err(TcFault::BadDepth),
            };
        },
        None => {},
    }
    match text::strip_prefix(t, "movetime") {
        Some(x) => {
            return Ok(TcText::MoveTime(text::skip_equals(x).to_owned()));
        },
        None => {},
    }
    match text::split_once(t, '/') {
        None => Err(TcFault::Unknown),
        Some((moves, rest)) => match text::split_once(rest, '+') {
            None => Err(TcFault::NoIncrement),
            Some((base, inc)) => match text::parse_natural(text::trim(moves), u32::MAX as u64) {
                Some(n) => Ok(
                    TcText::Classic {
                        moves: n as u32,
                        base: text::trim(base).to_owned(),
                        inc: text::trim(inc).to_owned(),
                    },
                ),
                None => Err(TcFault::BadMoveCount),
            },
        },
    }
}

/// What a number of seconds turned out to be.
#[derive(Debug, Clone, Copy, PartialEq, Eq, Structural)]
pub enum Seconds {
    /// It is no number.
    Bad,
    /// Whether it is more than 0, whether it is less, and how many milliseconds it
    /// is.
    Known { positive: bool, negative: bool, ms: u64 },
}

/// The time control once its seconds are known: those of a move, or the base time
/// and the increment.
pub open spec fn settled(t: TcShape, first: Seconds, second: Seconds) -> Result<TimeControl, TcFault> {
    match t {
        TcShape::Depth(d) => Ok(TimeControl::Depth(d as i32)),
        TcShape::MoveTime(_) => match first {
            Seconds::Bad => Err(TcFault::BadMoveTime),
            Seconds::Known { positive, ms, .. } => if positive {
                Ok(TimeControl::FixedMove(ms))
            } else {
                Err(TcFault::MoveTimeNotPositive)
            },
        },
        TcShape::Classic { moves, .. } => match (first, second) {
            (Seconds::Bad, _) => Err(TcFault::BadBase),
            (_, Seconds::Bad) => Err(TcFault::BadIncrement),
            (
                Seconds::Known { positive, ms: base_ms, .. },
                Seconds::Known { negative, ms: inc_ms, .. },
            ) => if moves == 0 || !positive || negative {
                Err(TcFault::BadNumbers)
            } else {
                Ok(TimeControl::Classic { moves: moves as u32, base_ms, inc_ms })
            },
        },
        TcShape::Bad(f) => Err(f),
    }
}

/// The time control once its seconds are known.
pub fn settle_tc(t: &TcText, first: Seconds, second: Seconds) -> (r: Result<TimeControl, TcFault>)
    ensures
        r == settled(t.shape(), first, second),
{
    match t {
        TcText::Depth(d) => Ok(TimeControl::Depth(*d)),
        TcText::MoveTime(_) => match first {
            Seconds::Bad => Err(TcFault::BadMoveTime),
            Seconds::Known { positive, ms, .. } => if positive {
                Ok(TimeControl::FixedMove(ms))
            } else {
                Err(TcFault::MoveTimeNotPositive)
            },
        },
        TcText::Classic { moves, .. } => match first {
            Seconds::Bad => Err(TcFault::BadBase),
            Seconds::Known { positive, ms: base_ms, .. } => match second {
                Seconds::Bad => Err(TcFault::BadIncrement),
                Seconds::Known { negative, ms: inc_ms, .. } => if *moves == 0 || !positive
                    || negative {
                    Err(TcFault::BadNumbers)
                } else {
                    Ok(TimeControl::Classic { moves: *moves, base_ms, inc_ms })
                },
            },
        },
    }
}

// --- errors ---------------------------------------------------------------------------------------

/// Why a command line is refused.
#[derive(Debug)]
pub enum CliError {
    /// Two reports are compared, but fewer are named.
    CompareNeedsTwo,
    /// A flag has no value.
    Unexpected(String),
    Unknown(String),
    NotAnInteger(String),
    NotANumber(String),
    NotAnAnswer { what: String, got: String },
    Control { fault: TcFault, got: String },
    TooFewGames,
    TooFewAtOnce,
    NoSuchCandidate,
    DepthTooSmall,
    TooFewPlies,
}

fn phrase(a: &str, b: &str, c: &str) -> (r: String)
    ensures
        r@ == a@ + b@ + c@,
{
    let mut out: String = a.to_owned();
    out.append(b);
    out.append(c);
    out
}

/// What surrounds the text of a time control in the words for a fault; where
/// the number in it is too small, the words leave the text out.
pub open spec fn fault_words(f: TcFault) -> (Seq<char>, Seq<char>) {
    match f {
        TcFault::BadDepth => ("bad depth control "@, ""@),
        TcFault::DepthTooSmall => ("depth must be >= 1"@, ""@),
        TcFault::BadMoveTime => ("bad movetime control "@, ""@),
        TcFault::MoveTimeNotPositive => ("movetime must be positive"@, ""@),
        TcFault::Unknown => ("bad time control "@, " (use depth=N, movetime=S or M/B+I)"@),
        TcFault::NoIncrement => ("bad time control "@, " (missing increment, use M/B+I)"@),
        TcFault::BadMoveCount => ("bad move count in "@, ""@),
        TcFault::BadBase => ("bad base time in "@, ""@),
        TcFault::BadIncrement => ("bad increment in "@, ""@),
        TcFault::BadNumbers => ("bad time control "@, ""@),
    }
}

/// The words for a fault do not quote the time control.
pub open spec fn bare_fault(f: TcFault) -> bool {
    f is DepthTooSmall || f is MoveTimeNotPositive
}

fn fault_strs(f: TcFault) -> (r: (&'static str, &'static str))
    ensures
        r.0@ == fault_words(f).0,
        r.1@ == fault_words(f).1,
{
    match f {
        TcFault::BadDepth => ("bad depth control ", ""),
        TcFault::DepthTooSmall => ("depth must be >= 1", ""),
        TcFault::BadMoveTime => ("bad movetime control ", ""),
        TcFault::MoveTimeNotPositive => ("movetime must be positive", ""),
        TcFault::Unknown => ("bad time control ", " (use depth=N, movetime=S or M/B+I)"),
        TcFault::NoIncrement => ("bad time control ", " (missing increment, use M/B+I)"),
        TcFault::BadMoveCount => ("bad move count in ", ""),
        TcFault::BadBase => ("bad base time in ", ""),
        TcFault::BadIncrement => ("bad increment in ", ""),
        TcFault::BadNumbers => ("bad time control ", ""),
    }
}

impl CliError {
    /// The reason in words.
    pub open spec fn words(&self) -> Seq<char> {
        match self {
            CliError::CompareNeedsTwo => "--compare needs two report paths"@,
            CliError::Unexpected(t) => "unexpected argument: "@ + t@ + " (use --help)"@,
            CliError::Unknown(t) => "unknown argument: "@ + t@ + ""@,
            CliError::NotAnInteger(t) => ""@ + t@ + " must be an integer"@,
            CliError::NotANumber(t) => ""@ + t@ + " must be a number"@,
            CliError::NotAnAnswer { what, got } => what@ + " must be on|off, got "@
                + text::quoted_text(got@),
            CliError::Control { fault, got } => fault_words(*fault).0 + (if bare_fault(*fault) {
                ""@
            } else {
                text::quoted_text(got@)
            }) + fault_words(*fault).1,
            CliError::TooFewGames => "--games must be >= 1"@,
            CliError::TooFewAtOnce => "--parallel must be >= 1"@,
            CliError::NoSuchCandidate => "--candidate must be 'white' or 'black'"@,
            CliError::DepthTooSmall => "--depth must be >= 1"@,
            CliError::TooFewPlies => "--max-plies must be >= 1"@,
        }
    }

    /// The reason in words.
    pub fn message(&self) -> (r: String)
        ensures
            r@ == self.words(),
            self matches CliError::NotAnAnswer { what, got } ==> text::plainly_quoted(got@),
            self matches CliError::Control { fault, got } ==> (bare_fault(*fault)
                || text::plainly_quoted(got@)),
    {
        match self {
            CliError::CompareNeedsTwo => "--compare needs two report paths".to_owned(),
            CliError::Unexpected(t) => phrase(
                "unexpected argument: ",
                t.as_str(),
                " (use --help)",
            ),
            CliError::Unknown(t) => phrase("unknown argument: ", t.as_str(), ""),
            CliError::NotAnInteger(t) => phrase("", t.as_str(), " must be an integer"),
            CliError::NotANumber(t) => phrase("", t.as_str(), " must be a number"),
            CliError::NotAnAnswer { what, got } => {
                let tail: String = text::quoted(got.as_str());
                phrase(what.as_str(), " must be on|off, got ", tail.as_str())
            },
            CliError::Control { fault, got } => {
                let (a, b) = fault_strs(*fault);
                match fault {
                    TcFault::DepthTooSmall | TcFault::MoveTimeNotPositive => phrase(a, "", b),
                    _ => phrase(a, text::quoted(got.as_str()).as_str(), b),
                }
            },
            CliError::TooFewGames => "--games must be >= 1".to_owned(),
            CliError::TooFewAtOnce => "--parallel must be >= 1".to_owned(),
            CliError::NoSuchCandidate => "--candidate must be 'white' or 'black'".to_owned(),
            CliError::DepthTooSmall => "--depth must be >= 1".to_owned(),
            CliError::TooFewPlies => "--max-plies must be >= 1".to_owned(),
        }
    }
}

// --- flags ----------------------------------------------------------------------------------------

/// The flags that stand before a value or alone.
#[derive(Debug, Clone, Copy, PartialEq, Eq, Structural)]
pub enum Key {
    Games,
    Depth,
    Tc,
    Seed,
    Suite,
    Alternate,
    NoAlternate,
    Parallel,
    White,
    Black,
    Hash,
    WhiteHash,
    BlackHash,
    Threads,
    WhiteThreads,
    BlackThreads,
    Candidate,
    MaxPlies,
    AdjudicateMate,
    NoAdjudicate,
    Syzygy,
    Sprt,
    SprtElo0,
    SprtElo1,
    SprtAlpha,
    SprtBeta,
    SprtDrawElo,
    Out,
    Report,
    Resume,
    RecordBaseline,
    Event,
}

/// What kind of value a flag takes.
#[derive(Debug, Clone, Copy, PartialEq, Eq, Structural)]
pub enum Kind {
    Count,
    Depth,
    Control,
    Seed,
    Text,
    Switch,
    /// None.
    Bare,
    Real,
}

/// The kind of value of a flag.
pub open spec fn kind_of(k: Key) -> Kind {
    match k {
        Key::Depth => Kind::Depth,
        Key::Tc => Kind::Control,
        Key::Seed => Kind::Seed,
        Key::Suite
        | Key::White
        | Key::Black
        | Key::Candidate
        | Key::Syzygy
        | Key::Out
        | Key::Report
        | Key::Resume
        | Key::RecordBaseline
        | Key::Event => Kind::Text,
        Key::Alternate
        | Key::AdjudicateMate => Kind::Switch,
        Key::NoAlternate
        | Key::NoAdjudicate
        | Key::Sprt => Kind::Bare,
        Key::SprtElo0
        | Key::SprtElo1
        | Key::SprtAlpha
        | Key::SprtBeta
        | Key::SprtDrawElo => Kind::Real,
        _ => Kind::Count,
    }
}

fn kind(k: Key) -> (r: Kind)
    ensures
        r == kind_of(k),
{
    match k {
        Key::Depth => Kind::Depth,
        Key::Tc => Kind::Control,
        Key::Seed => Kind::Seed,
        Key::Suite
        | Key::White
        | Key::Black
        | Key::Candidate
        | Key::Syzygy
        | Key::Out
        | Key::Report
        | Key::Resume
        | Key::RecordBaseline
        | Key::Event => Kind::Text,
        Key::Alternate
        | Key::AdjudicateMate => Kind::Switch,
        Key::NoAlternate
        | Key::NoAdjudicate
        | Key::Sprt => Kind::Bare,
        Key::SprtElo0
        | Key::SprtElo1
        | Key::SprtAlpha
        | Key::SprtBeta
        | Key::SprtDrawElo => Kind::Real,
        _ => Kind::Count,
    }
}

/// The flag with a name.
pub open spec fn key_named(s: Seq<char>) -> Option<Key> {
    if s == "--games"@ {
        Some(Key::Games)
    } else if s == "--depth"@ {
        Some(Key::Depth)
    } else if s == "--tc"@ {
        Some(Key::Tc)
    } else if s == "--seed"@ {
        Some(Key::Seed)
    } else if s == "--suite"@ {
        Some(Key::Suite)
    } else if s == "--alternate"@ {
        Some(Key::Alternate)
    } else if s == "--no-alternate"@ {
        Some(Key::NoAlternate)
    } else if s == "--parallel"@ {
        Some(Key::Parallel)
    } else if s == "--white"@ {
        Some(Key::White)
    } else if s == "--black"@ {
        Some(Key::Black)
    } else if s == "--hash"@ {
        Some(Key::Hash)
    } else if s == "--white-hash"@ {
        Some(Key::WhiteHash)
    } else if s == "--black-hash"@ {
        Some(Key::BlackHash)
    } else if s == "--threads"@ {
        Some(Key::Threads)
    } else if s == "--white-threads"@ {
        Some(Key::WhiteThreads)
    } else if s == "--black-threads"@ {
        Some(Key::BlackThreads)
    } else if s == "--candidate"@ {
        Some(Key::Candidate)
    } else if s == "--max-plies"@ {
        Some(Key::MaxPlies)
    } else if s == "--adjudicate-mate"@ {
        Some(Key::AdjudicateMate)
    } else if s == "--no-adjudicate"@ {
        Some(Key::NoAdjudicate)
    } else if s == "--syzygy"@ {
        Some(Key::Syzygy)
    } else if s == "--sprt"@ {
        Some(Key::Sprt)
    } else if s == "--sprt-elo0"@ {
        Some(Key::SprtElo0)
    } else if s == "--sprt-elo1"@ {
        Some(Key::SprtElo1)
    } else if s == "--sprt-alpha"@ {
        Some(Key::SprtAlpha)
    } else if s == "--sprt-beta"@ {
        Some(Key::SprtBeta)
    } else if s == "--sprt-draw-elo"@ {
        Some(Key::SprtDrawElo)
    } else if s == "--out"@ {
        Some(Key::Out)
    } else if s == "--report"@ {
        Some(Key::Report)
    } else if s == "--resume"@ {
        Some(Key::Resume)
    } else if s == "--record-baseline"@ {
        Some(Key::RecordBaseline)
    } else if s == "--event"@ {
        Some(Key::Event)
    } else {
        None
    }
}

fn key(s: &str) -> (r: Option<Key>)
    ensures
        r == key_named(s@),
{
    if text::same(s, "--games") {
        Some(Key::Games)
    } else if text::same(s, "--depth") {
        Some(Key::Depth)
    } else if text::same(s, "--tc") {
        Some(Key::Tc)
    } else if text::same(s, "--seed") {
        Some(Key::Seed)
    } else if text::same(s, "--suite") {
        Some(Key::Suite)
    } else if text::same(s, "--alternate") {
        Some(Key::Alternate)
    } else if text::same(s, "--no-alternate") {
        Some(Key::NoAlternate)
    } else if text::same(s, "--parallel") {
        Some(Key::Parallel)
    } else if text::same(s, "--white") {
        Some(Key::White)
    } else if text::same(s, "--black") {
        Some(Key::Black)
    } else if text::same(s, "--hash") {
        Some(Key::Hash)
    } else if text::same(s, "--white-hash") {
        Some(Key::WhiteHash)
    } else if text::same(s, "--black-hash") {
        Some(Key::BlackHash)
    } else if text::same(s, "--threads") {
        Some(Key::Threads)
    } else if text::same(s, "--white-threads") {
        Some(Key::WhiteThreads)
    } else if text::same(s, "--black-threads") {
        Some(Key::BlackThreads)
    } else if text::same(s, "--candidate") {
        Some(Key::Candidate)
    } else if text::same(s, "--max-plies") {
        Some(Key::MaxPlies)
    } else if text::same(s, "--adjudicate-mate") {
        Some(Key::AdjudicateMate)
    } else if text::same(s, "--no-adjudicate") {
        Some(Key::NoAdjudicate)
    } else if text::same(s, "--syzygy") {
        Some(Key::Syzygy)
    } else if text::same(s, "--sprt") {
        Some(Key::Sprt)
    } else if text::same(s, "--sprt-elo0") {
        Some(Key::SprtElo0)
    } else if text::same(s, "--sprt-elo1") {
        Some(Key::SprtElo1)
    } else if text::same(s, "--sprt-alpha") {
        Some(Key::SprtAlpha)
    } else if text::same(s, "--sprt-beta") {
        Some(Key::SprtBeta)
    } else if text::same(s, "--sprt-draw-elo") {
        Some(Key::SprtDrawElo)
    } else if text::same(s, "--out") {
        Some(Key::Out)
    } else if text::same(s, "--report") {
        Some(Key::Report)
    } else if text::same(s, "--resume") {
        Some(Key::Resume)
    } else if text::same(s, "--record-baseline") {
        Some(Key::RecordBaseline)
    } else if text::same(s, "--event") {
        Some(Key::Event)
    } else {
        None
    }
}

/// A flag with its value.
#[derive(Debug)]
pub enum Flag {
    Help,
    /// Two reports are compared.
    Compare(String, String),
    Count(Key, usize),
    Depth(i32),
    Seed(u64),
    /// A time control, and the text that it was read from.
    Control(TcText, String),
    Text(Key, String),
    Switch(Key, bool),
    Bare(Key),
    /// A number with a fraction, as a text.
    Real(Key, String),
}

/// The value of a flag can be read.
pub open spec fn readable(name: Seq<char>, v: Seq<char>) -> bool {
    match key_named(name) {
        None => false,
        Some(k) => match kind_of(k) {
            Kind::Count => text::natural(v) is Some && text::natural(v)->0 <= usize::MAX,
            Kind::Depth => text::integer(v) is Some && i32::MIN <= text::integer(v)->0 <= i32::MAX,
            Kind::Control => !(tc_shape(v) is Bad),
            Kind::Seed => text::natural(v) is Some && text::natural(v)->0 <= u64::MAX,
            Kind::Switch => answer(v) is Some,
            _ => true,
        },
    }
}

/// What a flag with its value means.
pub open spec fn means(f: Flag, name: Seq<char>, v: Seq<char>) -> bool {
    match f {
        Flag::Help => false,
        Flag::Compare(_, _) => false,
        Flag::Count(k, n) => key_named(name) == Some(k) && kind_of(k) == Kind::Count
            && text::natural(v) == Some(n as int),
        Flag::Depth(d) => key_named(name) == Some(Key::Depth) && text::integer(v) == Some(d as int),
        Flag::Seed(n) => key_named(name) == Some(Key::Seed) && text::natural(v) == Some(n as int),
        Flag::Control(t, s) => key_named(name) == Some(Key::Tc) && t.shape() == tc_shape(v) && s@ == v,
        Flag::Text(k, s) => key_named(name) == Some(k) && kind_of(k) == Kind::Text && s@ == v,
        Flag::Switch(k, b) => key_named(name) == Some(k) && kind_of(k) == Kind::Switch && answer(v)
            == Some(b),
        Flag::Bare(k) => key_named(name) == Some(k) && kind_of(k) == Kind::Bare,
        Flag::Real(k, s) => key_named(name) == Some(k) && kind_of(k) == Kind::Real && s@ == v,
    }
}

/// Why a flag with its value is refused.
pub open spec fn refused(e: CliError, name: Seq<char>, v: Seq<char>) -> bool {
    match key_named(name) {
        None => e matches CliError::Unknown(t) && t@ == name,
        Some(k) => match kind_of(k) {
            Kind::Control => e matches CliError::Control { fault, got } && tc_shape(v)
                == TcShape::Bad(fault) && got@ == v,
            Kind::Switch => e matches CliError::NotAnAnswer { what, got } && what@ == name && got@
                == text::trimmed(v),
            _ => e matches CliError::NotAnInteger(t) && t@ == name,
        },
    }
}

/// Reads the value of a flag.
pub fn read_flag(name: &str, v: &str) -> (r: Result<Flag, CliError>)
    ensures
        r is Ok <==> readable(name@, v@),
        r matches Ok(f) ==> means(f, name@, v@),
        r matches Err(e) ==> refused(e, name@, v@),
{
    let k: Key = match key(name) {
        Some(k) => k,
        None => {
            return Err(CliError::Unknown(name.to_owned()));
        },
    };
    match kind(k) {
        Kind::Count => match text::parse_usize(v) {
            Some(n) => Ok(Flag::Count(k, n)),
            None => Err(CliError::NotAnInteger(name.to_owned())),
        },
        Kind::Depth => match text::parse_i32(v) {
            Some(d) => Ok(Flag::Depth(d)),
            None => Err(CliError::NotAnInteger(name.to_owned())),
        },
        Kind::Seed => match text::parse_natural(v, u64::MAX) {
            Some(n) => Ok(Flag::Seed(n)),
            None => Err(CliError::NotAnInteger(name.to_owned())),
        },
        Kind::Control => match parse_tc(v) {
            Ok(t) => Ok(Flag::Control(t, v.to_owned())),
            Err(fault) => Err(CliError::Control { fault, got: v.to_owned() }),
        },
        Kind::Switch => match parse_bool(name, v) {
            Ok(b) => Ok(Flag::Switch(k, b)),
            Err(e) => Err(e),
        },
        Kind::Text => Ok(Flag::Text(k, v.to_owned())),
        Kind::Bare => Ok(Flag::Bare(k)),
        Kind::Real => Ok(Flag::Real(k, v.to_owned())),
    }
}

/// The name of a flag, which ends before an equals sign.
pub open spec fn name_in(arg: Seq<char>) -> Seq<char> {
    match text::cut(arg, '=') {
        Some((k, _)) => k,
        None => arg,
    }
}

/// The value of the flag at a place, and where to read on. A flag that stands alone
/// takes nothing from the next argument.
pub open spec fn taken_at(args: Seq<Seq<char>>, i: int) -> (Option<Seq<char>>, int) {
    let name = name_in(args[i]);
    if key_named(name) is Some && kind_of(key_named(name)->0) == Kind::Bare {
        (
            Some(
                match text::cut(args[i], '=') {
                    Some((_, v)) => v,
                    None => Seq::empty(),
                },
            ),
            i + 1,
        )
    } else {
        value_at(args, i, name)
    }
}

/// The flags from place `i` on, up to the first error or the call for help.
pub open spec fn reading(
    args: Seq<Seq<char>>,
    i: int,
    flags: Seq<Flag>,
    e: Option<CliError>,
) -> bool
    decreases args.len() - i,
{
    if i >= args.len() {
        flags.len() == 0 && e is None
    } else if args[i] == "--help"@ || args[i] == "-h"@ {
        flags.len() == 1 && flags[0] is Help && e is None
    } else if args[i] == "--compare"@ {
        if i + 2 < args.len() {
            &&& flags.len() > 0
            &&& flags[0] matches Flag::Compare(a, b)
            &&& a@ == args[i + 1]
            &&& b@ == args[i + 2]
            &&& reading(args, i + 3, flags.skip(1), e)
        } else {
            flags.len() == 0 && e == Some(CliError::CompareNeedsTwo)
        }
    } else {
        let (value, next) = taken_at(args, i);
        match value {
            None => flags.len() == 0 && (e matches Some(CliError::Unexpected(t)) && t@ == args[i]),
            Some(v) => if !readable(name_in(args[i]), v) {
                flags.len() == 0 && e is Some && refused(e->0, name_in(args[i]), v)
            } else {
                &&& next > i
                &&& flags.len() > 0
                &&& means(flags[0], name_in(args[i]), v)
                &&& reading(args, next, flags.skip(1), e)
            },
        }
    }
}

/// Adds the flags from place `i` on.
#[verifier::spinoff_prover]
#[verifier::rlimit(40)]
fn read_from(args: &[String], i: usize, out: &mut Vec<Flag>) -> (r: Option<CliError>)
    ensures
        final(out)@.len() >= old(out)@.len(),
        final(out)@.take(old(out)@.len() as int) == old(out)@,
        reading(text::shown(args@), i as int, final(out)@.skip(old(out)@.len() as int), r),
    decreases args@.len() - i,
{
    let ghost all = text::shown(args@);
    let ghost held = out@;
    if i >= args.len() {
        return None;
    }
    let arg: &str = args[i].as_str();
    assert(all[i as int] == arg@);
    if text::same(arg, "--help") || text::same(arg, "-h") {
        out.push(Flag::Help);
        assert(out@.take(held.len() as int) =~= held);
        assert(out@.skip(held.len() as int) =~= seq![Flag::Help]);
        return None;
    }
    if text::same(arg, "--compare") {
        if args.len() - i <= 2 {
            return Some(CliError::CompareNeedsTwo);
        }
        let a: String = args[i + 1].clone();
        let b: String = args[i + 2].clone();
        let f: Flag = Flag::Compare(a, b);
        out.push(f);
        let ghost middle = out@;
        let r: Option<CliError> = read_from(args, i + 3, out);
        proof {
            assert(out@.take(held.len() as int) =~= held) by {
                assert(out@.take(middle.len() as int) == middle);
                assert(out@.take(held.len() as int) =~= middle.take(held.len() as int));
            }
            let rest = out@.skip(held.len() as int);
            assert(rest[0] == out@.take(middle.len() as int)[held.len() as int]);
            assert(rest.skip(1) =~= out@.skip(middle.len() as int));
        }
        return r;
    }
    let parts: Option<(&str, &str)> = text::split_once(arg, '=');
    let name: &str = match parts {
        Some((k, _v)) => k,
        None => arg,
    };
    assert(name@ == name_in(arg@));
    let mut next: usize = i;
    let bare: bool = match key(name) {
        Some(k) => match kind(k) {
            Kind::Bare => true,
            _ => false,
        },
        None => false,
    };
    let value: Option<String> = if bare {
        next = i + 1;
        match parts {
            Some((_k, v)) => Some(v.to_owned()),
            None => Some(String::new()),
        }
    } else {
        flag_value(args, &mut next, name)
    };
    assert(seen(value) == taken_at(all, i as int).0);
    assert(next == taken_at(all, i as int).1);
    match value {
        None => Some(CliError::Unexpected(arg.to_owned())),
        Some(v) => match read_flag(name, v.as_str()) {
            Err(e) => Some(e),
            Ok(f) => {
                out.push(f);
                let ghost middle = out@;
                assert(next > i);
                let r: Option<CliError> = read_from(args, next, out);
                proof {
                    assert(out@.take(held.len() as int) =~= held) by {
                        assert(out@.take(middle.len() as int) == middle);
                        assert(out@.take(held.len() as int) =~= middle.take(held.len() as int));
                    }
                    let rest = out@.skip(held.len() as int);
                    assert(rest[0] == out@.take(middle.len() as int)[held.len() as int]);
                    assert(rest.skip(1) =~= out@.skip(middle.len() as int));
                }
                r
            },
        },
    }
}

/// The flags of a command line up to the first error or the call for help, and the
/// error.
pub fn read_flags(args: &[String]) -> (r: (Vec<Flag>, Option<CliError>))
    ensures
        reading(text::shown(args@), 0, r.0@, r.1),
{
    let mut flags: Vec<Flag> = Vec::new();
    let e: Option<CliError> = read_from(args, 0, &mut flags);
    assert(flags@.skip(0) =~= flags@);
    (flags, e)
}

// --- settings -------------------------------------------------------------------------------------

/// What a command line asks for.
#[derive(Debug)]
pub struct Settings {
    pub games: usize,
    pub depth: Option<i32>,
    pub tc: Option<TimeControl>,
    pub seed: u64,
    pub white: Option<String>,
    pub black: Option<String>,
    pub hash: usize,
    pub white_hash: Option<usize>,
    pub black_hash: Option<usize>,
    pub threads: usize,
    pub white_threads: Option<usize>,
    pub black_threads: Option<usize>,
    pub candidate: String,
    pub suite: String,
    pub alternate: bool,
    pub parallel: usize,
    pub adjudicate: bool,
    pub max_plies: usize,
    pub syzygy: Option<String>,
    pub sprt: bool,
    pub out: Option<String>,
    pub report: Option<String>,
    pub resume: Option<String>,
    pub record_baseline: Option<String>,
    pub compare: Option<(String, String)>,
    pub event: String,
}

/// The count that a flag sets.
pub open spec fn count_or(f: Flag, k: Key, held: usize) -> usize {
    match f {
        Flag::Count(key, n) => if key == k {
            n
        } else {
            held
        },
        _ => held,
    }
}

fn count(f: &Flag, k: Key, held: usize) -> (r: usize)
    ensures
        r == count_or(*f, k, held),
{
    match f {
        Flag::Count(key, n) => if *key == k {
            *n
        } else {
            held
        },
        _ => held,
    }
}

/// The count that a flag sets, where there may be none.
pub open spec fn some_count_or(f: Flag, k: Key, held: Option<usize>) -> Option<usize> {
    match f {
        Flag::Count(key, n) => if key == k {
            Some(n)
        } else {
            held
        },
        _ => held,
    }
}

fn some_count(f: &Flag, k: Key, held: Option<usize>) -> (r: Option<usize>)
    ensures
        r == some_count_or(*f, k, held),
{
    match f {
        Flag::Count(key, n) => if *key == k {
            Some(*n)
        } else {
            held
        },
        _ => held,
    }
}

/// The text that a flag sets.
pub open spec fn text_or(f: Flag, k: Key, held: Seq<char>) -> Seq<char> {
    match f {
        Flag::Text(key, s) => if key == k {
            s@
        } else {
            held
        },
        _ => held,
    }
}

fn set_text(f: &Flag, k: Key, held: &mut String)
    ensures
        final(held)@ == text_or(*f, k, old(held)@),
{
    match f {
        Flag::Text(key, s) => {
            if *key == k {
                *held = s.clone();
            }
        },
        _ => {},
    }
}

/// The text that a flag sets, where there may be none.
pub open spec fn some_text_or(f: Flag, k: Key, held: Option<Seq<char>>) -> Option<Seq<char>> {
    match f {
        Flag::Text(key, s) => if key == k {
            Some(s@)
        } else {
            held
        },
        _ => held,
    }
}

fn set_some_text(f: &Flag, k: Key, held: &mut Option<String>)
    ensures
        seen(*final(held)) == some_text_or(*f, k, seen(*old(held))),
{
    match f {
        Flag::Text(key, s) => {
            if *key == k {
                *held = Some(s.clone());
            }
        },
        _ => {},
    }
}

/// The answer that a flag sets; another flag sets it off.
pub open spec fn switch_or(f: Flag, k: Key, off: Key, held: bool) -> bool {
    match f {
        Flag::Switch(key, b) => if key == k {
            b
        } else {
            held
        },
        Flag::Bare(key) => held && key != off,
        _ => held,
    }
}

fn switch(f: &Flag, k: Key, off: Key, held: bool) -> (r: bool)
    ensures
        r == switch_or(*f, k, off, held),
{
    match f {
        Flag::Switch(key, b) => if *key == k {
            *b
        } else {
            held
        },
        Flag::Bare(key) => held && *key != off,
        _ => held,
    }
}

/// The texts of a pair that may be missing.
pub open spec fn seen_pair(p: Option<(String, String)>) -> Option<(Seq<char>, Seq<char>)> {
    match p {
        Some((a, b)) => Some((a@, b@)),
        None => None,
    }
}

/// The settings after one more flag.
pub open spec fn after_flag(s: Settings, f: Flag, t: Settings) -> bool {
    &&& t.games == count_or(f, Key::Games, s.games)
    &&& t.depth == (match f {
        Flag::Depth(d) => Some(d),
        _ => s.depth,
    })
    &&& t.tc == s.tc
    &&& t.seed == (match f {
        Flag::Seed(n) => n,
        _ => s.seed,
    })
    &&& seen(t.white) == some_text_or(f, Key::White, seen(s.white))
    &&& seen(t.black) == some_text_or(f, Key::Black, seen(s.black))
    &&& t.hash == count_or(f, Key::Hash, s.hash)
    &&& t.white_hash == some_count_or(f, Key::WhiteHash, s.white_hash)
    &&& t.black_hash == some_count_or(f, Key::BlackHash, s.black_hash)
    &&& t.threads == count_or(f, Key::Threads, s.threads)
    &&& t.white_threads == some_count_or(f, Key::WhiteThreads, s.white_threads)
    &&& t.black_threads == some_count_or(f, Key::BlackThreads, s.black_threads)
    &&& t.candidate@ == text_or(f, Key::Candidate, s.candidate@)
    &&& t.suite@ == text_or(f, Key::Suite, s.suite@)
    &&& t.alternate == switch_or(f, Key::Alternate, Key::NoAlternate, s.alternate)
    &&& t.parallel == count_or(f, Key::Parallel, s.parallel)
    &&& t.adjudicate == switch_or(f, Key::AdjudicateMate, Key::NoAdjudicate, s.adjudicate)
    &&& t.max_plies == count_or(f, Key::MaxPlies, s.max_plies)
    &&& seen(t.syzygy) == some_text_or(f, Key::Syzygy, seen(s.syzygy))
    &&& t.sprt == (s.sprt || f == Flag::Bare(Key::Sprt))
    &&& seen(t.out) == some_text_or(f, Key::Out, seen(s.out))
    &&& seen(t.report) == some_text_or(f, Key::Report, seen(s.report))
    &&& seen(t.resume) == some_text_or(f, Key::Resume, seen(s.resume))
    &&& seen(t.record_baseline) == some_text_or(f, Key::RecordBaseline, seen(s.record_baseline))
    &&& seen_pair(t.compare) == (match f {
        Flag::Compare(a, b) => Some((a@, b@)),
        _ => seen_pair(s.compare),
    })
    &&& t.event@ == text_or(f, Key::Event, s.event@)
}

impl Default for Settings {
    fn default() -> (r: Self)
        ensures
            r.games == 10,
            r.depth is None,
            r.tc is None,
            r.seed == 1,
            r.white is None,
            r.black is None,
            r.hash == 16,
            r.white_hash is None,
            r.black_hash is None,
            r.threads == 1,
            r.white_threads is None,
            r.black_threads is None,
            r.candidate@ == "white"@,
            r.suite@ == "classical-v1"@,
            r.alternate,
            r.parallel == 1,
            r.adjudicate,
            r.max_plies == 240,
            r.syzygy is None,
            !r.sprt,
            r.out is None,
            r.report is None,
            r.resume is None,
            r.record_baseline is None,
            r.compare is None,
            r.event@ == "Morstilia match"@,
    {
        Settings {
            games: 10,
            depth: None,
            tc: None,
            seed: 1,
            white: None,
            black: None,
            hash: 16,
            white_hash: None,
            black_hash: None,
            threads: 1,
            white_threads: None,
            black_threads: None,
            candidate: "white".to_owned(),
            suite: "classical-v1".to_owned(),
            alternate: true,
            parallel: 1,
            adjudicate: true,
            max_plies: 240,
            syzygy: None,
            sprt: false,
            out: None,
            report: None,
            resume: None,
            record_baseline: None,
            compare: None,
            event: "Morstilia match".to_owned(),
        }
    }
}

/// The time control that is asked for; a depth of 6 without one.
pub open spec fn control_of(s: Settings) -> TimeControl {
    match s.tc {
        Some(t) => t,
        None => TimeControl::Depth(
            match s.depth {
                Some(d) => d,
                None => 6,
            },
        ),
    }
}

/// The candidate that is asked for.
pub open spec fn candidate_of(s: Settings) -> CandidateSide {
    if s.candidate@ == "white"@ {
        CandidateSide::White
    } else {
        CandidateSide::Black
    }
}

/// What is wrong with settings; the first of these counts.
pub open spec fn fault_in(s: Settings) -> Option<CliError> {
    if s.games == 0 {
        Some(CliError::TooFewGames)
    } else if s.parallel == 0 {
        Some(CliError::TooFewAtOnce)
    } else if s.candidate@ != "white"@ && s.candidate@ != "black"@ {
        Some(CliError::NoSuchCandidate)
    } else if control_of(s) matches TimeControl::Depth(d) && d < 1 {
        Some(CliError::DepthTooSmall)
    } else if s.max_plies < 1 {
        Some(CliError::TooFewPlies)
    } else {
        None
    }
}

impl Settings {
    /// Takes up a flag. Those for help, for numbers with fractions and for the time
    /// control change nothing here.
    #[verifier::spinoff_prover]
    pub fn take(&mut self, f: &Flag)
        ensures
            after_flag(*old(self), *f, *final(self)),
    {
        self.games = count(f, Key::Games, self.games);
        self.hash = count(f, Key::Hash, self.hash);
        self.threads = count(f, Key::Threads, self.threads);
        self.parallel = count(f, Key::Parallel, self.parallel);
        self.max_plies = count(f, Key::MaxPlies, self.max_plies);
        self.white_hash = some_count(f, Key::WhiteHash, self.white_hash);
        self.black_hash = some_count(f, Key::BlackHash, self.black_hash);
        self.white_threads = some_count(f, Key::WhiteThreads, self.white_threads);
        self.black_threads = some_count(f, Key::BlackThreads, self.black_threads);
        self.alternate = switch(f, Key::Alternate, Key::NoAlternate, self.alternate);
        self.adjudicate = switch(f, Key::AdjudicateMate, Key::NoAdjudicate, self.adjudicate);
        set_text(f, Key::Candidate, &mut self.candidate);
        set_text(f, Key::Suite, &mut self.suite);
        set_text(f, Key::Event, &mut self.event);
        set_some_text(f, Key::White, &mut self.white);
        set_some_text(f, Key::Black, &mut self.black);
        set_some_text(f, Key::Syzygy, &mut self.syzygy);
        set_some_text(f, Key::Out, &mut self.out);
        set_some_text(f, Key::Report, &mut self.report);
        set_some_text(f, Key::Resume, &mut self.resume);
        set_some_text(f, Key::RecordBaseline, &mut self.record_baseline);
        match f {
            Flag::Depth(d) => {
                self.depth = Some(*d);
            },
            Flag::Seed(n) => {
                self.seed = *n;
            },
            Flag::Bare(k) => {
                if *k == Key::Sprt {
                    self.sprt = true;
                }
            },
            Flag::Compare(a, b) => {
                self.compare = Some((a.clone(), b.clone()));
            },
            _ => {},
        }
    }

    /// Refuses settings that make no sense, and gives the time control and the
    /// candidate of those that do.
    pub fn check(&self) -> (r: Result<(TimeControl, CandidateSide), CliError>)
        ensures
            r == (match fault_in(*self) {
                Some(e) => Err(e),
                None => Ok((control_of(*self), candidate_of(*self))),
            }),
    {
        if self.games == 0 {
            return Err(CliError::TooFewGames);
        }
        if self.parallel == 0 {
            return Err(CliError::TooFewAtOnce);
        }
        let candidate: CandidateSide = if text::same(self.candidate.as_str(), "white") {
            CandidateSide::White
        } else if text::same(self.candidate.as_str(), "black") {
            CandidateSide::Black
        } else {
            return Err(CliError::NoSuchCandidate);
        };
        let tc: TimeControl = match self.tc {
            Some(t) => t,
            None => TimeControl::Depth(
                match self.depth {
                    Some(d) => d,
                    None => 6,
                },
            ),
        };
        match tc {
            TimeControl::Depth(d) => {
                if d < 1 {
                    return Err(CliError::DepthTooSmall);
                }
            },
            _ => {},
        }
        if self.max_plies < 1 {
            return Err(CliError::TooFewPlies);
        }
        Ok((tc, candidate))
    }

    /// One of the two engines, with its parameters and its tables.
    pub fn engine(
        &self,
        side: CandidateSide,
        params: EvalParams,
        syzygy: Option<Syzygy>,
        syzygy_label: String,
    ) -> (r: EngineConfig)
        ensures
            ({
                let first = side == CandidateSide::White;
                let path = if first {
                    seen(self.white)
                } else {
                    seen(self.black)
                };
                let threads = if first {
                    self.white_threads
                } else {
                    self.black_threads
                };
                let hash = if first {
                    self.white_hash
                } else {
                    self.black_hash
                };
                &&& r.name@ == side_name(path)
                &&& r.params_label@ == (match path {
                    Some(p) => p,
                    None => "baseline"@,
                })
                &&& r.threads == (match threads {
                    Some(n) => n,
                    None => self.threads,
                })
                &&& r.hash_mb == (match hash {
                    Some(n) => n,
                    None => self.hash,
                })
            }),
            r.params == params,
            r.syzygy == syzygy,
            r.syzygy_label == syzygy_label,
    {
        let (path, threads, hash): (&Option<String>, Option<usize>, Option<usize>) = match side {
            CandidateSide::White => (&self.white, self.white_threads, self.white_hash),
            CandidateSide::Black => (&self.black, self.black_threads, self.black_hash),
        };
        let params_label: String = match path {
            Some(p) => p.clone(),
            None => "baseline".to_owned(),
        };
        EngineConfig {
            name: name_of(path).to_owned(),
            params,
            params_label,
            threads: match threads {
                Some(n) => n,
                None => self.threads,
            },
            hash_mb: match hash {
                Some(n) => n,
                None => self.hash,
            },
            syzygy,
            syzygy_label,
        }
    }

    /// The match between two engines.
    pub fn config(
        &self,
        tc: TimeControl,
        candidate: CandidateSide,
        white: EngineConfig,
        black: EngineConfig,
    ) -> (r: MatchConfig)
        ensures
            r.games == self.games,
            r.seed == self.seed,
            r.white == white,
            r.black == black,
            r.tc == tc,
            r.alternate_colors == self.alternate,
            r.max_plies == self.max_plies,
            r.adjudicate_mate == self.adjudicate,
            r.parallel == self.parallel,
            r.candidate == candidate,
            r.suite_name@ == self.suite@,
    {
        MatchConfig {
            games: self.games,
            seed: self.seed,
            white,
            black,
            tc,
            alternate_colors: self.alternate,
            max_plies: self.max_plies,
            adjudicate_mate: self.adjudicate,
            parallel: self.parallel,
            candidate,
            suite_name: self.suite.clone(),
        }
    }
}

/// Each name is that of one flag.
proof fn lemma_flag_names()
    ensures
        key_named("--games"@) == Some(Key::Games),
        key_named("--depth"@) == Some(Key::Depth),
        key_named("--tc"@) == Some(Key::Tc),
        key_named("--seed"@) == Some(Key::Seed),
        key_named("--suite"@) == Some(Key::Suite),
        key_named("--alternate"@) == Some(Key::Alternate),
        key_named("--no-alternate"@) == Some(Key::NoAlternate),
        key_named("--parallel"@) == Some(Key::Parallel),
        key_named("--white"@) == Some(Key::White),
        key_named("--black"@) == Some(Key::Black),
        key_named("--hash"@) == Some(Key::Hash),
        key_named("--white-hash"@) == Some(Key::WhiteHash),
        key_named("--black-hash"@) == Some(Key::BlackHash),
        key_named("--threads"@) == Some(Key::Threads),
        key_named("--white-threads"@) == Some(Key::WhiteThreads),
        key_named("--black-threads"@) == Some(Key::BlackThreads),
        key_named("--candidate"@) == Some(Key::Candidate),
        key_named("--max-plies"@) == Some(Key::MaxPlies),
        key_named("--adjudicate-mate"@) == Some(Key::AdjudicateMate),
        key_named("--no-adjudicate"@) == Some(Key::NoAdjudicate),
        key_named("--syzygy"@) == Some(Key::Syzygy),
        key_named("--sprt"@) == Some(Key::Sprt),
        key_named("--sprt-elo0"@) == Some(Key::SprtElo0),
        key_named("--sprt-elo1"@) == Some(Key::SprtElo1),
        key_named("--sprt-alpha"@) == Some(Key::SprtAlpha),
        key_named("--sprt-beta"@) == Some(Key::SprtBeta),
        key_named("--sprt-draw-elo"@) == Some(Key::SprtDrawElo),
        key_named("--out"@) == Some(Key::Out),
        key_named("--report"@) == Some(Key::Report),
        key_named("--resume"@) == Some(Key::Resume),
        key_named("--record-baseline"@) == Some(Key::RecordBaseline),
        key_named("--event"@) == Some(Key::Event),
{
    reveal_strlit("--games");
    reveal_strlit("--depth");
    reveal_strlit("--tc");
    reveal_strlit("--seed");
    reveal_strlit("--suite");
    reveal_strlit("--alternate");
    reveal_strlit("--no-alternate");
    reveal_strlit("--parallel");
    reveal_strlit("--white");
    reveal_strlit("--black");
    reveal_strlit("--hash");
    reveal_strlit("--white-hash");
    reveal_strlit("--black-hash");
    reveal_strlit("--threads");
    reveal_strlit("--white-threads");
    reveal_strlit("--black-threads");
    reveal_strlit("--candidate");
    reveal_strlit("--max-plies");
    reveal_strlit("--adjudicate-mate");
    reveal_strlit("--no-adjudicate");
    reveal_strlit("--syzygy");
    reveal_strlit("--sprt");
    reveal_strlit("--sprt-elo0");
    reveal_strlit("--sprt-elo1");
    reveal_strlit("--sprt-alpha");
    reveal_strlit("--sprt-beta");
    reveal_strlit("--sprt-draw-elo");
    reveal_strlit("--out");
    reveal_strlit("--report");
    reveal_strlit("--resume");
    reveal_strlit("--record-baseline");
    reveal_strlit("--event");
    assert("--games"@.len() == 7);
    assert("--depth"@.len() == 7);
    assert("--tc"@.len() == 4);
    assert("--seed"@.len() == 6);
    assert("--suite"@.len() == 7);
    assert("--alternate"@.len() == 11);
    assert("--no-alternate"@.len() == 14);
    assert("--parallel"@.len() == 10);
    assert("--white"@.len() == 7);
    assert("--black"@.len() == 7);
    assert("--hash"@.len() == 6);
    assert("--white-hash"@.len() == 12);
    assert("--black-hash"@.len() == 12);
    assert("--threads"@.len() == 9);
    assert("--white-threads"@.len() == 15);
    assert("--black-threads"@.len() == 15);
    assert("--candidate"@.len() == 11);
    assert("--max-plies"@.len() == 11);
    assert("--adjudicate-mate"@.len() == 17);
    assert("--no-adjudicate"@.len() == 15);
    assert("--syzygy"@.len() == 8);
    assert("--sprt"@.len() == 6);
    assert("--sprt-elo0"@.len() == 11);
    assert("--sprt-elo1"@.len() == 11);
    assert("--sprt-alpha"@.len() == 12);
    assert("--sprt-beta"@.len() == 11);
    assert("--sprt-draw-elo"@.len() == 15);
    assert("--out"@.len() == 5);
    assert("--report"@.len() == 8);
    assert("--resume"@.len() == 8);
    assert("--record-baseline"@.len() == 17);
    assert("--event"@.len() == 7);
    assert("--depth"@[2] != "--games"@[2]);
    assert("--suite"@[2] != "--games"@[2]);
    assert("--suite"@[2] != "--depth"@[2]);
    assert("--white"@[2] != "--games"@[2]);
    assert("--white"@[2] != "--depth"@[2]);
    assert("--white"@[2] != "--suite"@[2]);
    assert("--black"@[2] != "--games"@[2]);
    assert("--black"@[2] != "--depth"@[2]);
    assert("--black"@[2] != "--suite"@[2]);
    assert("--black"@[2] != "--white"@[2]);
    assert("--hash"@[2] != "--seed"@[2]);
    assert("--black-hash"@[2] != "--white-hash"@[2]);
    assert("--black-threads"@[2] != "--white-threads"@[2]);
    assert("--candidate"@[2] != "--alternate"@[2]);
    assert("--max-plies"@[2] != "--alternate"@[2]);
    assert("--max-plies"@[2] != "--candidate"@[2]);
    assert("--no-adjudicate"@[2] != "--white-threads"@[2]);
    assert("--no-adjudicate"@[2] != "--black-threads"@[2]);
    assert("--sprt"@[3] != "--seed"@[3]);
    assert("--sprt"@[2] != "--hash"@[2]);
    assert("--sprt-elo0"@[2] != "--alternate"@[2]);
    assert("--sprt-elo0"@[2] != "--candidate"@[2]);
    assert("--sprt-elo0"@[2] != "--max-plies"@[2]);
    assert("--sprt-elo1"@[2] != "--alternate"@[2]);
    assert("--sprt-elo1"@[2] != "--candidate"@[2]);
    assert("--sprt-elo1"@[2] != "--max-plies"@[2]);
    assert("--sprt-elo1"@[10] != "--sprt-elo0"@[10]);
    assert("--sprt-alpha"@[2] != "--white-hash"@[2]);
    assert("--sprt-alpha"@[2] != "--black-hash"@[2]);
    assert("--sprt-beta"@[2] != "--alternate"@[2]);
    assert("--sprt-beta"@[2] != "--candidate"@[2]);
    assert("--sprt-beta"@[2] != "--max-plies"@[2]);
    assert("--sprt-beta"@[7] != "--sprt-elo0"@[7]);
    assert("--sprt-beta"@[7] != "--sprt-elo1"@[7]);
    assert("--sprt-draw-elo"@[2] != "--white-threads"@[2]);
    assert("--sprt-draw-elo"@[2] != "--black-threads"@[2]);
    assert("--sprt-draw-elo"@[2] != "--no-adjudicate"@[2]);
    assert("--report"@[2] != "--syzygy"@[2]);
    assert("--resume"@[2] != "--syzygy"@[2]);
    assert("--resume"@[4] != "--report"@[4]);
    assert("--record-baseline"@[2] != "--adjudicate-mate"@[2]);
    assert("--event"@[2] != "--games"@[2]);
    assert("--event"@[2] != "--depth"@[2]);
    assert("--event"@[2] != "--suite"@[2]);
    assert("--event"@[2] != "--white"@[2]);
    assert("--event"@[2] != "--black"@[2]);
}

/// A flag with a value sets what it names, to its value, and nothing else: what one side is
/// told is not told to the other.
pub proof fn law_flags_set_what_they_name(
    s: Settings,
    f: Flag,
    t: Settings,
    name: Seq<char>,
    v: Seq<char>,
)
    requires
        means(f, name, v),
        after_flag(s, f, t),
    ensures
        name == "--games"@ ==> text::natural(v) == Some(t.games as int),
        name != "--games"@ ==> t.games == s.games,
        name == "--hash"@ ==> text::natural(v) == Some(t.hash as int),
        name != "--hash"@ ==> t.hash == s.hash,
        name == "--threads"@ ==> text::natural(v) == Some(t.threads as int),
        name != "--threads"@ ==> t.threads == s.threads,
        name == "--parallel"@ ==> text::natural(v) == Some(t.parallel as int),
        name != "--parallel"@ ==> t.parallel == s.parallel,
        name == "--max-plies"@ ==> text::natural(v) == Some(t.max_plies as int),
        name != "--max-plies"@ ==> t.max_plies == s.max_plies,
        name == "--white-hash"@ ==> t.white_hash is Some && text::natural(v) == Some(t.white_hash->0 as int),
        name != "--white-hash"@ ==> t.white_hash == s.white_hash,
        name == "--black-hash"@ ==> t.black_hash is Some && text::natural(v) == Some(t.black_hash->0 as int),
        name != "--black-hash"@ ==> t.black_hash == s.black_hash,
        name == "--white-threads"@ ==> t.white_threads is Some && text::natural(v) == Some(t.white_threads->0 as int),
        name != "--white-threads"@ ==> t.white_threads == s.white_threads,
        name == "--black-threads"@ ==> t.black_threads is Some && text::natural(v) == Some(t.black_threads->0 as int),
        name != "--black-threads"@ ==> t.black_threads == s.black_threads,
        t.candidate@ == if name == "--candidate"@ {
            v
        } else {
            s.candidate@
        },
        t.suite@ == if name == "--suite"@ {
            v
        } else {
            s.suite@
        },
        t.event@ == if name == "--event"@ {
            v
        } else {
            s.event@
        },
        seen(t.white) == if name == "--white"@ {
            Some(v)
        } else {
            seen(s.white)
        },
        seen(t.black) == if name == "--black"@ {
            Some(v)
        } else {
            seen(s.black)
        },
        seen(t.syzygy) == if name == "--syzygy"@ {
            Some(v)
        } else {
            seen(s.syzygy)
        },
        seen(t.out) == if name == "--out"@ {
            Some(v)
        } else {
            seen(s.out)
        },
        seen(t.report) == if name == "--report"@ {
            Some(v)
        } else {
            seen(s.report)
        },
        seen(t.resume) == if name == "--resume"@ {
            Some(v)
        } else {
            seen(s.resume)
        },
        seen(t.record_baseline) == if name == "--record-baseline"@ {
            Some(v)
        } else {
            seen(s.record_baseline)
        },
        name == "--depth"@ ==> t.depth is Some && text::integer(v) == Some(t.depth->0 as int),
        name != "--depth"@ ==> t.depth == s.depth,
        name == "--seed"@ ==> text::natural(v) == Some(t.seed as int),
        name != "--seed"@ ==> t.seed == s.seed,
        name == "--alternate"@ ==> answer(v) == Some(t.alternate),
        name == "--no-alternate"@ ==> !t.alternate,
        name != "--alternate"@ && name != "--no-alternate"@ ==> t.alternate == s.alternate,
        name == "--adjudicate-mate"@ ==> answer(v) == Some(t.adjudicate),
        name == "--no-adjudicate"@ ==> !t.adjudicate,
        name != "--adjudicate-mate"@ && name != "--no-adjudicate"@ ==> t.adjudicate
            == s.adjudicate,
        name == "--sprt"@ ==> t.sprt,
        name != "--sprt"@ ==> t.sprt == s.sprt,
        t.tc == s.tc,
        seen_pair(t.compare) == seen_pair(s.compare),
{
    lemma_flag_names();
}

/// Settings are fine where there is something to play, somebody to play it and a search that
/// looks ahead; then the time control stands before the depth, and the candidate is the side
/// that is named.
pub proof fn law_fine_settings(s: Settings)
    ensures
        fault_in(s) is None <==> {
            &&& s.games >= 1 && s.parallel >= 1 && s.max_plies >= 1
            &&& s.candidate@ == "white"@ || s.candidate@ == "black"@
            &&& s.tc is None && s.depth is Some ==> s.depth->0 >= 1
            &&& s.tc matches Some(TimeControl::Depth(d)) ==> d >= 1
        },
        s.tc is Some ==> s.tc == Some(control_of(s)),
        s.tc is None && s.depth is Some ==> control_of(s) == TimeControl::Depth(s.depth->0),
        s.candidate@ == "black"@ ==> candidate_of(s) == CandidateSide::Black,
        s.candidate@ == "white"@ ==> candidate_of(s) == CandidateSide::White,
{
    reveal_strlit("white");
    reveal_strlit("black");
    assert("white"@[0] != "black"@[0]);
}

/// A time control that is settled gives the time that was asked for: a move time that is more
/// than nothing, or a base time that is more than nothing for at least one move and an increment
/// that is not negative.
pub proof fn law_settled_controls(t: TcShape, first: Seconds, second: Seconds)
    ensures
        settled(t, first, second) matches Ok(TimeControl::FixedMove(ms)) ==> {
            &&& t is MoveTime
            &&& first matches Seconds::Known { positive, ms: m, .. } && positive && m == ms
        },
        settled(t, first, second) matches Ok(TimeControl::Classic { moves, base_ms, inc_ms }) ==> {
            &&& t matches TcShape::Classic { moves: n, .. } && n as u32 == moves && n != 0
            &&& first matches Seconds::Known { positive, ms: m, .. } && positive && m == base_ms
            &&& second matches Seconds::Known { negative, ms: m, .. } && !negative && m == inc_ms
        },
        t is MoveTime && (first matches Seconds::Known { positive, .. } && positive) ==> settled(
            t,
            first,
            second,
        ) is Ok,
        (t matches TcShape::Classic { moves, .. } && moves != 0) && (first matches Seconds::Known {
            positive,
            ..
        } && positive) && (second matches Seconds::Known { negative, .. } && !negative) ==> settled(
            t,
            first,
            second,
        ) is Ok,
        t matches TcShape::Depth(d) ==> settled(t, first, second) == Ok::<TimeControl, TcFault>(
            TimeControl::Depth(d as i32),
        ),
{
}

} // verus!
