//! The command line of the engine, and the texts that its commands print.
use vstd::prelude::*;
use crate::board::Position;
use crate::board::rules;
use crate::board::state;
use crate::config::{DEFAULT_HASH_MB, DEFAULT_THREADS};
use crate::matchplay::cli;
use crate::text;
use crate::types::RawMove;
use crate::types;

verus! {

/// How deep a search or a benchmark goes unless told otherwise.
pub const DEFAULT_BENCH_DEPTH: i32 = 10;

// --- arguments ------------------------------------------------------------------------------------

/// What a search is told.
#[derive(Debug, Clone, Copy, PartialEq, Eq, Structural)]
pub struct SearchOptions {
    pub depth: i32,
    pub threads: usize,
    pub hash: usize,
    /// Whether counters are shown.
    pub stats: bool,
}

impl Default for SearchOptions {
    fn default() -> (r: Self)
        ensures
            r == usual(),
    {
        SearchOptions {
            depth: DEFAULT_BENCH_DEPTH,
            threads: DEFAULT_THREADS,
            hash: DEFAULT_HASH_MB,
            stats: false,
        }
    }
}

/// What a search is told unless told otherwise.
pub open spec fn usual() -> SearchOptions {
    SearchOptions {
        depth: DEFAULT_BENCH_DEPTH,
        threads: DEFAULT_THREADS,
        hash: DEFAULT_HASH_MB,
        stats: false,
    }
}

/// What the engine is asked to do.
#[derive(Debug)]
pub enum Command {
    /// Read commands from a user interface.
    Uci,
    Version,
    Help,
    /// Count the lines of a position.
    Perft { depth: u32, fen: Option<String> },
    /// Search a position.
    Search { position: String, options: SearchOptions },
    /// Search the positions of the benchmark.
    Bench(SearchOptions),
}

/// Why a command line is refused.
#[derive(Debug)]
pub enum CommandError {
    OnlyUci,
    Unknown(String),
    Unexpected(String),
    BadPerftDepth,
    NoPerftDepth,
    NoFen,
    NotAnInteger(String),
}

/// What the engine is asked to do, its texts as characters.
pub enum Asked {
    Uci,
    Version,
    Help,
    Perft { depth: int, fen: Option<Seq<char>> },
    Search { position: Seq<char>, options: SearchOptions },
    Bench(SearchOptions),
}

/// Why a command line is refused, its texts as characters.
pub enum Complaint {
    OnlyUci,
    Unknown(Seq<char>),
    Unexpected(Seq<char>),
    BadPerftDepth,
    NoPerftDepth,
    NoFen,
    NotAnInteger(Seq<char>),
}

impl Command {
    pub open spec fn asks(&self) -> Asked {
        match self {
            Command::Uci => Asked::Uci,
            Command::Version => Asked::Version,
            Command::Help => Asked::Help,
            Command::Perft { depth, fen } => Asked::Perft {
                depth: *depth as int,
                fen: cli::seen(*fen),
            },
            Command::Search { position, options } => Asked::Search {
                position: position@,
                options: *options,
            },
            Command::Bench(options) => Asked::Bench(*options),
        }
    }
}

impl CommandError {
    pub open spec fn tells(&self) -> Complaint {
        match self {
            CommandError::OnlyUci => Complaint::OnlyUci,
            CommandError::Unknown(t) => Complaint::Unknown(t@),
            CommandError::Unexpected(t) => Complaint::Unexpected(t@),
            CommandError::BadPerftDepth => Complaint::BadPerftDepth,
            CommandError::NoPerftDepth => Complaint::NoPerftDepth,
            CommandError::NoFen => Complaint::NoFen,
            CommandError::NotAnInteger(t) => Complaint::NotAnInteger(t@),
        }
    }

    /// The reason in words.
    pub fn message(&self) -> (r: String)
        ensures
            r@ == (match self.tells() {
                Complaint::OnlyUci => "only --mode uci is supported"@,
                Complaint::Unknown(t) => "unknown argument: "@ + t,
                Complaint::Unexpected(t) => "unexpected argument: "@ + t,
                Complaint::BadPerftDepth => "invalid perft depth"@,
                Complaint::NoPerftDepth => "--perft needs a depth (e.g. `--perft 5`)"@,
                Complaint::NoFen => "--fen needs a FEN string, e.g. --fen \"r6k/... \""@,
                Complaint::NotAnInteger(t) => t + " must be an integer"@ + (if t == "--hash"@ {
                    " (MB)"@
                } else {
                    Seq::empty()
                }),
            }),
    {
        match self {
            CommandError::OnlyUci => "only --mode uci is supported".to_owned(),
            CommandError::Unknown(t) => {
                let mut out: String = "unknown argument: ".to_owned();
                out.append(t.as_str());
                out
            },
            CommandError::Unexpected(t) => {
                let mut out: String = "unexpected argument: ".to_owned();
                out.append(t.as_str());
                out
            },
            CommandError::BadPerftDepth => "invalid perft depth".to_owned(),
            CommandError::NoPerftDepth => "--perft needs a depth (e.g. `--perft 5`)".to_owned(),
            CommandError::NoFen => "--fen needs a FEN string, e.g. --fen \"r6k/... \"".to_owned(),
            CommandError::NotAnInteger(t) => {
                let mut out: String = t.clone();
                out.append(" must be an integer");
                if text::same(t.as_str(), "--hash") {
                    out.append(" (MB)");
                }
                assert(self.tells() == Complaint::NotAnInteger(t@));
                out
            },
        }
    }
}

/// A number that a `usize` can hold.
pub open spec fn size_of(v: Seq<char>) -> Option<int> {
    match text::natural(v) {
        Some(n) => if n <= usize::MAX {
            Some(n)
        } else {
            None
        },
        None => None,
    }
}

/// The options after one flag with its value; `token` is the argument that names
/// the flag.
pub open spec fn with_flag(
    o: SearchOptions,
    token: Seq<char>,
    name: Seq<char>,
    v: Seq<char>,
) -> Result<SearchOptions, Complaint> {
    if name == "--depth"@ {
        match text::integer(v) {
            Some(d) => if i32::MIN <= d <= i32::MAX {
                Ok(SearchOptions { depth: d as i32, ..o })
            } else {
                Err(Complaint::NotAnInteger(name))
            },
            None => Err(Complaint::NotAnInteger(name)),
        }
    } else if name == "--threads"@ {
        match size_of(v) {
            Some(n) => Ok(SearchOptions { threads: n as usize, ..o }),
            None => Err(Complaint::NotAnInteger(name)),
        }
    } else if name == "--hash"@ {
        match size_of(v) {
            Some(n) => Ok(SearchOptions { hash: n as usize, ..o }),
            None => Err(Complaint::NotAnInteger(name)),
        }
    } else {
        Err(Complaint::Unexpected(token))
    }
}

fn take_flag(o: &mut SearchOptions, token: &str, name: &str, v: &str) -> (r: Result<
    (),
    CommandError,
>)
    ensures
        match r {
            Ok(_) => with_flag(*old(o), token@, name@, v@) == Ok::<_, Complaint>(*final(o)),
            Err(e) => with_flag(*old(o), token@, name@, v@) == Err::<SearchOptions, _>(e.tells()),
        },
{
    if text::same(name, "--depth") {
        match text::parse_i32(v) {
            Some(d) => {
                o.depth = d;
                Ok(())
            },
            None => Err(CommandError::NotAnInteger(name.to_owned())),
        }
    } else if text::same(name, "--threads") {
        match text::parse_usize(v) {
            Some(n) => {
                o.threads = n;
                Ok(())
            },
            None => Err(CommandError::NotAnInteger(name.to_owned())),
        }
    } else if text::same(name, "--hash") {
        match text::parse_usize(v) {
            Some(n) => {
                o.hash = n;
                Ok(())
            },
            None => Err(CommandError::NotAnInteger(name.to_owned())),
        }
    } else {
        Err(CommandError::Unexpected(token.to_owned()))
    }
}

/// The options from place `j` on; only the benchmark shows counters.
pub open spec fn options_from(args: Seq<Seq<char>>, j: int, o: SearchOptions, bench: bool) -> Result<
    SearchOptions,
    Complaint,
>
    decreases args.len() - j,
{
    if j >= args.len() {
        Ok(o)
    } else if bench && args[j] == "--stats"@ {
        options_from(args, j + 1, SearchOptions { stats: true, ..o }, bench)
    } else {
        let name = cli::name_in(args[j]);
        let (value, next) = cli::value_at(args, j, name);
        match value {
            None => Err(Complaint::Unexpected(args[j])),
            Some(v) => match with_flag(o, args[j], name, v) {
                Ok(more) => if next > j {
                    options_from(args, next, more, bench)
                } else {
                    Err(Complaint::Unexpected(args[j]))
                },
                Err(e) => Err(e),
            },
        }
    }
}

/// Reads the options from place `j` on.
fn read_options(args: &[String], j: usize, bench: bool) -> (r: Result<SearchOptions, CommandError>)
    ensures
        match r {
            Ok(o) => options_from(text::shown(args@), j as int, usual(), bench) == Ok::<
                _,
                Complaint,
            >(o),
            Err(e) => options_from(text::shown(args@), j as int, usual(), bench) == Err::<
                SearchOptions,
                _,
            >(e.tells()),
        },
{
    let ghost all = text::shown(args@);
    let ghost whole = options_from(all, j as int, usual(), bench);
    let mut o: SearchOptions = SearchOptions::default();
    let mut at: usize = j;
    while at < args.len()
        invariant
            all == text::shown(args@),
            whole == options_from(all, j as int, usual(), bench),
            options_from(all, at as int, o, bench) == whole,
        decreases args@.len() - at,
    {
        let arg: &str = args[at].as_str();
        assert(all[at as int] == arg@);
        if bench && text::same(arg, "--stats") {
            o.stats = true;
            at = at + 1;
        } else {
            let name: &str = match text::split_once(arg, '=') {
                Some((k, _v)) => k,
                None => arg,
            };
            assert(name@ == cli::name_in(arg@));
            let ghost before = at;
            let ghost held = o;
            let value: Option<String> = cli::flag_value(args, &mut at, name);
            match value {
                None => {
                    return Err(CommandError::Unexpected(arg.to_owned()));
                },
                Some(v) => match take_flag(&mut o, arg, name, v.as_str()) {
                    Ok(_) => {
                        assert(at > before);
                    },
                    Err(e) => {
                        return Err(e);
                    },
                },
            }
        }
    }
    Ok(o)
}

/// The FEN that is named from place `j` on; the last one counts.
pub open spec fn fen_from(args: Seq<Seq<char>>, j: int, held: Option<Seq<char>>) -> Result<
    Option<Seq<char>>,
    Complaint,
>
    decreases args.len() - j,
{
    if j >= args.len() {
        Ok(held)
    } else {
        let (value, next) = cli::value_at(args, j, "--fen"@);
        match value {
            None => Err(Complaint::Unexpected(args[j])),
            Some(v) => if next > j {
                fen_from(args, next, Some(v))
            } else {
                Err(Complaint::Unexpected(args[j]))
            },
        }
    }
}

/// The depth and the FEN of a count, from place `j` on: the depth comes first, as a
/// flag or alone.
pub open spec fn perft_from(args: Seq<Seq<char>>, j: int) -> Result<Asked, Complaint> {
    let (value, next) = cli::value_at(args, j, "--depth"@);
    match value {
        Some(v) => match text::natural(v) {
            Some(n) => if n <= u32::MAX {
                perft_asked(n, fen_from(args, next, None))
            } else {
                Err(Complaint::BadPerftDepth)
            },
            None => Err(Complaint::BadPerftDepth),
        },
        None => if next < args.len() && text::natural(args[next]) is Some && text::natural(
            args[next],
        )->0 <= u32::MAX {
            perft_asked(text::natural(args[next])->0, fen_from(args, next + 1, None))
        } else {
            Err(Complaint::NoPerftDepth)
        },
    }
}

/// A count with its depth, once the FEN is read.
pub open spec fn perft_asked(depth: int, fen: Result<Option<Seq<char>>, Complaint>) -> Result<
    Asked,
    Complaint,
> {
    match fen {
        Ok(f) => Ok(Asked::Perft { depth, fen: f }),
        Err(e) => Err(e),
    }
}

/// A search or a benchmark, once its options are read.
pub open spec fn search_asked(
    fen: Option<Seq<char>>,
    options: Result<SearchOptions, Complaint>,
) -> Result<Asked, Complaint> {
    match options {
        Ok(o) => match fen {
            Some(f) => Ok(Asked::Search { position: f, options: o }),
            None => Ok(Asked::Bench(o)),
        },
        Err(e) => Err(e),
    }
}

/// The command at place `i`.
pub open spec fn command_at(args: Seq<Seq<char>>, i: int) -> Result<Asked, Complaint> {
    if i >= args.len() || args[i] == "uci"@ {
        Ok(Asked::Uci)
    } else if args[i] == "--version"@ || args[i] == "-v"@ {
        Ok(Asked::Version)
    } else if args[i] == "--help"@ || args[i] == "-h"@ {
        Ok(Asked::Help)
    } else if args[i] == "--perft"@ {
        perft_from(args, i + 1)
    } else if args[i] == "--fen"@ {
        if i + 1 < args.len() && !(args[i + 1].len() > 0 && args[i + 1][0] == '-') {
            search_asked(Some(args[i + 1]), options_from(args, i + 2, usual(), false))
        } else {
            Err(Complaint::NoFen)
        }
    } else if args[i] == "--bench"@ {
        search_asked(None, options_from(args, i + 1, usual(), true))
    } else {
        Err(Complaint::Unknown(args[i]))
    }
}

/// The command of a command line. The mode may be named first, but there is only
/// one.
pub open spec fn asked(args: Seq<Seq<char>>) -> Result<Asked, Complaint> {
    if args.len() > 0 && args[0] == "--mode"@ {
        if args.len() > 1 && args[1] == "uci"@ {
            command_at(args, 2)
        } else {
            Err(Complaint::OnlyUci)
        }
    } else {
        command_at(args, 0)
    }
}

/// A result tells what is asked.
pub open spec fn answers(r: Result<Command, CommandError>, a: Result<Asked, Complaint>) -> bool {
    match r {
        Ok(c) => a == Ok::<_, Complaint>(c.asks()),
        Err(e) => a == Err::<Asked, _>(e.tells()),
    }
}

fn read_fen(args: &[String], j: usize) -> (r: Result<Option<String>, CommandError>)
    ensures
        match r {
            Ok(f) => fen_from(text::shown(args@), j as int, None) == Ok::<_, Complaint>(
                cli::seen(f),
            ),
            Err(e) => fen_from(text::shown(args@), j as int, None) == Err::<Option<Seq<char>>, _>(
                e.tells(),
            ),
        },
{
    let ghost all = text::shown(args@);
    let ghost whole = fen_from(all, j as int, None);
    let mut fen: Option<String> = None;
    let mut at: usize = j;
    while at < args.len()
        invariant
            all == text::shown(args@),
            whole == fen_from(all, j as int, None),
            fen_from(all, at as int, cli::seen(fen)) == whole,
        decreases args@.len() - at,
    {
        let arg: &str = args[at].as_str();
        assert(all[at as int] == arg@);
        let ghost before = at;
        match cli::flag_value(args, &mut at, "--fen") {
            None => {
                return Err(CommandError::Unexpected(arg.to_owned()));
            },
            Some(v) => {
                assert(at > before);
                fen = Some(v);
            },
        }
    }
    Ok(fen)
}

fn read_perft(args: &[String], j: usize) -> (r: Result<Command, CommandError>)
    ensures
        answers(r, perft_from(text::shown(args@), j as int)),
{
    let ghost all = text::shown(args@);
    let mut at: usize = j;
    let given: Option<String> = cli::flag_value(args, &mut at, "--depth");
    let depth: u32 = match given {
        Some(v) => match text::parse_natural(v.as_str(), u32::MAX as u64) {
            Some(n) => n as u32,
            None => {
                return Err(CommandError::BadPerftDepth);
            },
        },
        None => {
            if at >= args.len() {
                return Err(CommandError::NoPerftDepth);
            }
            assert(all[at as int] == args@[at as int]@);
            match text::parse_natural(args[at].as_str(), u32::MAX as u64) {
                Some(n) => {
                    at = at + 1;
                    n as u32
                },
                None => {
                    return Err(CommandError::NoPerftDepth);
                },
            }
        },
    };
    match read_fen(args, at) {
        Ok(fen) => Ok(Command::Perft { depth, fen }),
        Err(e) => Err(e),
    }
}

fn read_command(args: &[String], i: usize) -> (r: Result<Command, CommandError>)
    ensures
        answers(r, command_at(text::shown(args@), i as int)),
{
    let ghost all = text::shown(args@);
    if i >= args.len() {
        return Ok(Command::Uci);
    }
    let arg: &str = args[i].as_str();
    assert(all[i as int] == arg@);
    if text::same(arg, "uci") {
        Ok(Command::Uci)
    } else if text::same(arg, "--version") || text::same(arg, "-v") {
        Ok(Command::Version)
    } else if text::same(arg, "--help") || text::same(arg, "-h") {
        Ok(Command::Help)
    } else if text::same(arg, "--perft") {
        read_perft(args, i + 1)
    } else if text::same(arg, "--fen") {
        if args.len() - i < 2 {
            return Err(CommandError::NoFen);
        }
        let fen: &str = args[i + 1].as_str();
        assert(all[i + 1] == fen@);
        if fen.unicode_len() > 0 && fen.get_char(0) == '-' {
            return Err(CommandError::NoFen);
        }
        match read_options(args, i + 2, false) {
            Ok(options) => Ok(Command::Search { position: fen.to_owned(), options }),
            Err(e) => Err(e),
        }
    } else if text::same(arg, "--bench") {
        match read_options(args, i + 1, true) {
            Ok(options) => Ok(Command::Bench(options)),
            Err(e) => Err(e),
        }
    } else {
        Err(CommandError::Unknown(arg.to_owned()))
    }
}

/// Reads a command line.
pub fn command(args: &[String]) -> (r: Result<Command, CommandError>)
    ensures
        answers(r, asked(text::shown(args@))),
{
    let ghost all = text::shown(args@);
    if args.len() > 0 {
        assert(all[0] == args@[0]@);
        if text::same(args[0].as_str(), "--mode") {
            if args.len() > 1 {
                assert(all[1] == args@[1]@);
                if text::same(args[1].as_str(), "uci") {
                    return read_command(args, 2);
                }
            }
            return Err(CommandError::OnlyUci);
        }
    }
    read_command(args, 0)
}

// --- counts of lines ------------------------------------------------------------------------------

/// The first `n` moves of a count, each with the lines that begin with it.
pub open spec fn count_lines(fen: Seq<char>, depth: nat, n: int) -> Seq<char>
    decreases n,
{
    if n <= 0 {
        Seq::empty()
    } else {
        let s = rules::legal_steps(fen)[n - 1];
        count_lines(fen, depth, n - 1) + s.raw_spec().uci_spec() + ": "@ + text::decimal(
            state::nodes(rules::text_after(fen, s), (depth - 1) as nat) as int,
        ) + "\n"@
    }
}

/// What the count of the lines of a position prints.
pub open spec fn count_text(fen: Seq<char>, depth: nat) -> Seq<char> {
    if depth == 0 {
        "1\n"@
    } else {
        count_lines(fen, depth, rules::legal_steps(fen).len() as int) + "total: "@ + text::decimal(
            state::nodes(fen, depth) as int,
        ) + "\n"@
    }
}

/// What the count of the lines of a position prints; nothing where the count does
/// not fit in 64 bits.
pub fn perft_report(pos: &Position, depth: u32) -> (r: Option<String>)
    ensures
        r is Some <==> depth == 0 || state::nodes(pos.text_spec(), depth as nat) <= u64::MAX,
        r matches Some(s) ==> s@ == count_text(pos.text_spec(), depth as nat),
{
    if depth == 0 {
        return Some("1\n".to_owned());
    }
    let ghost fen = pos.text_spec();
    let ghost steps = rules::legal_steps(fen);
    match pos.divide(depth) {
        None => None,
        Some((split, total)) => {
            let mut out: String = String::new();
            let mut i: usize = 0;
            while i < split.len()
                invariant
                    i <= split@.len(),
                    depth > 0,
                    fen == pos.text_spec(),
                    steps == rules::legal_steps(fen),
                    split@.len() == steps.len(),
                    forall|k: int|
                        0 <= k < split@.len() ==> (#[trigger] split@[k]).0 == pos.legal()[k]
                            && split@[k].1 == state::nodes(
                            rules::text_after(fen, steps[k]),
                            (depth - 1) as nat,
                        ),
                    out@ == count_lines(fen, depth as nat, i as int),
                decreases split@.len() - i,
            {
                let (m, n): (RawMove, u64) = split[i];
                assert(split@[i as int].0 == pos.legal()[i as int]);
                assert(pos.legal()[i as int] == steps[i as int].raw_spec());
                let word: String = m.to_uci();
                out.append(word.as_str());
                out.append(": ");
                text::append_decimal(&mut out, n);
                out.append("\n");
                i = i + 1;
            }
            out.append("total: ");
            text::append_decimal(&mut out, total);
            out.append("\n");
            Some(out)
        },
    }
}

// --- searches -------------------------------------------------------------------------------------

/// What a search found.
#[derive(Debug)]
pub struct SearchSummary {
    pub depth: i32,
    /// The score in hundredths of a pawn.
    pub score: i32,
    /// How far away the mate is that the score announces, if it does.
    pub mate: Option<i32>,
    pub nodes: u64,
    pub nps: u64,
    pub time_ms: u128,
    pub pv: Vec<RawMove>,
    pub best: RawMove,
}

/// The moves of a line, with spaces between them.
pub open spec fn pv_text(pv: Seq<RawMove>, n: int) -> Seq<char>
    decreases n,
{
    if n <= 0 {
        Seq::empty()
    } else if n == 1 {
        pv[0].uci_spec()
    } else {
        pv_text(pv, n - 1) + " "@ + pv[n - 1].uci_spec()
    }
}

/// The score as UCI writes it.
pub open spec fn score_text(r: SearchSummary) -> Seq<char> {
    match r.mate {
        Some(n) => "mate "@ + text::signed(n as int),
        None => "cp "@ + text::signed(r.score as int),
    }
}

/// The line with what a search found.
pub open spec fn info_line(r: SearchSummary) -> Seq<char> {
    "info depth "@ + text::signed(r.depth as int) + " score "@ + score_text(r) + " nodes "@
        + text::decimal(r.nodes as int) + " nps "@ + text::decimal(r.nps as int) + " time "@
        + text::decimal(r.time_ms as int) + " pv "@ + pv_text(r.pv@, r.pv@.len() as int)
}

/// What a search prints; without a legal move there is only the null move.
pub open spec fn search_text(r: Option<SearchSummary>) -> Seq<char> {
    match r {
        None => "bestmove 0000\n"@,
        Some(r) => info_line(r) + "\n"@ + "bestmove "@ + r.best.uci_spec() + "\n"@,
    }
}

fn append_pv(out: &mut String, pv: &Vec<RawMove>)
    ensures
        final(out)@ == old(out)@ + pv_text(pv@, pv@.len() as int),
{
    let ghost start = out@;
    let mut i: usize = 0;
    assert(start + Seq::<char>::empty() =~= start);
    while i < pv.len()
        invariant
            i <= pv@.len(),
            out@ == start + pv_text(pv@, i as int),
        decreases pv@.len() - i,
    {
        let ghost before = pv_text(pv@, i as int);
        if i > 0 {
            out.append(" ");
        }
        let word: String = pv[i].to_uci();
        out.append(word.as_str());
        proof {
            if i == 0 {
                assert(start + before + word@ =~= start + word@);
            } else {
                assert(start + before + " "@ + word@ =~= start + (before + " "@ + word@));
            }
        }
        i = i + 1;
    }
}

/// What a search prints.
pub fn transcript(found: &Option<SearchSummary>) -> (r: String)
    ensures
        r@ == search_text(*found),
{
    match found {
        None => "bestmove 0000\n".to_owned(),
        Some(r) => {
            let mut out: String = "info depth ".to_owned();
            text::append_signed(&mut out, r.depth as i64);
            out.append(" score ");
            let ghost front = out@;
            match r.mate {
                Some(n) => {
                    out.append("mate ");
                    text::append_signed(&mut out, n as i64);
                },
                None => {
                    out.append("cp ");
                    text::append_signed(&mut out, r.score as i64);
                },
            }
            assert(out@ =~= front + score_text(*r));
            out.append(" nodes ");
            text::append_decimal(&mut out, r.nodes);
            out.append(" nps ");
            text::append_decimal(&mut out, r.nps);
            out.append(" time ");
            text::append_large(&mut out, r.time_ms);
            out.append(" pv ");
            append_pv(&mut out, &r.pv);
            assert(out@ =~= info_line(*r));
            out.append("\n");
            out.append("bestmove ");
            let best: String = r.best.to_uci();
            out.append(best.as_str());
            out.append("\n");
            out
        },
    }
}

/// What is known of a search from its transcript.
pub struct Known {
    pub nodes: int,
    pub time_ms: int,
    pub best: Seq<char>,
}

/// A number, or what was known before.
pub open spec fn number_or(v: Seq<char>, max: int, held: int) -> int {
    match text::natural(v) {
        Some(n) => if n <= max {
            n
        } else {
            held
        },
        None => held,
    }
}

/// What is known after the first `n` words of an info line: the word behind `nodes`
/// or `time` is a number.
pub open spec fn after_words(k: Known, words: Seq<Seq<char>>, n: int) -> Known
    decreases n,
{
    if n <= 1 {
        k
    } else {
        let before = after_words(k, words, n - 1);
        let name = words[n - 2];
        let value = words[n - 1];
        if name == "nodes"@ {
            Known { nodes: number_or(value, u64::MAX as int, before.nodes), ..before }
        } else if name == "time"@ {
            Known { time_ms: number_or(value, u128::MAX as int, before.time_ms), ..before }
        } else {
            before
        }
    }
}

/// What is known after a line.
pub open spec fn after_line(k: Known, line: Seq<char>) -> Known {
    if text::starts(line, "info "@) {
        let words = text::words(line.skip(5));
        after_words(k, words, words.len() as int)
    } else if text::starts(line, "bestmove "@) {
        Known { best: line.skip(9), ..k }
    } else {
        k
    }
}

/// What is known after the first `n` lines.
pub open spec fn after_lines(lines: Seq<Seq<char>>, n: int) -> Known
    decreases n,
{
    if n <= 0 {
        Known { nodes: 0, time_ms: 0, best: "0000"@ }
    } else {
        after_line(after_lines(lines, n - 1), lines[n - 1])
    }
}

/// The nodes, the time and the move of a transcript: the last ones count.
pub fn parse_info(output: &str) -> (r: (u64, u128, String))
    ensures
        ({
            let lines = text::lines(output@);
            after_lines(lines, lines.len() as int) == (Known {
                nodes: r.0 as int,
                time_ms: r.1 as int,
                best: r.2@,
            })
        }),
{
    let lines: Vec<String> = text::split_lines(output);
    let ghost all = text::lines(output@);
    let mut nodes: u64 = 0;
    let mut time_ms: u128 = 0;
    let mut best: String = "0000".to_owned();
    proof {
        reveal_strlit("info ");
        reveal_strlit("bestmove ");
    }
    let mut i: usize = 0;
    while i < lines.len()
        invariant
            all == text::shown(lines@),
            i <= lines@.len(),
            "info "@.len() == 5,
            "bestmove "@.len() == 9,
            after_lines(all, i as int) == (Known {
                nodes: nodes as int,
                time_ms: time_ms as int,
                best: best@,
            }),
        decreases lines@.len() - i,
    {
        let line: &str = lines[i].as_str();
        let ghost k = after_lines(all, i as int);
        assert(all[i as int] == line@);
        match text::strip_prefix(line, "info ") {
            Some(rest) => {
                let words: Vec<String> = text::split_whitespace(rest);
                let ghost shown = text::shown(words@);
                let mut n: usize = 0;
                while n < words.len()
                    invariant
                        n <= words@.len(),
                        shown == text::shown(words@),
                        after_words(k, shown, n as int) == (Known {
                            nodes: nodes as int,
                            time_ms: time_ms as int,
                            best: best@,
                        }),
                    decreases words@.len() - n,
                {
                    if n > 0 {
                        let name: &str = words[n - 1].as_str();
                        let value: &str = words[n].as_str();
                        assert(shown[n - 1] == name@ && shown[n as int] == value@);
                        if text::same(name, "nodes") {
                            match text::parse_natural(value, u64::MAX) {
                                Some(v) => {
                                    nodes = v;
                                },
                                None => {},
                            }
                        } else if text::same(name, "time") {
                            match text::parse_large(value, u128::MAX) {
                                Some(v) => {
                                    time_ms = v;
                                },
                                None => {},
                            }
                        }
                    }
                    n = n + 1;
                }
            },
            None => match text::strip_prefix(line, "bestmove ") {
                Some(m) => {
                    best = m.to_owned();
                },
                None => {},
            },
        }
        i = i + 1;
    }
    (nodes, time_ms, best)
}

/// Nodes in a second; none where no time went by.
pub fn nps(nodes: u64, time_ms: u128) -> (r: u128)
    ensures
        r == (if time_ms == 0 {
            0
        } else {
            nodes * 1000 / time_ms as int
        }),
        time_ms > 0 ==> r * time_ms <= nodes * 1000 < (r + 1) * time_ms,
{
    proof {
        if time_ms > 0 {
            let n = nodes * 1000;
            let t = time_ms as int;
            vstd::arithmetic::div_mod::lemma_fundamental_div_mod(n, t);
            assert((n / t) * t == t * (n / t) && (n / t + 1) * t == t * (n / t) + t)
                by (nonlinear_arith);
        }
    }
    if time_ms == 0 {
        0
    } else {
        nodes as u128 * 1000 / time_ms
    }
}

// --- laws -----------------------------------------------------------------------------------------

/// Nothing but words and the spaces between them.
spec fn plain(s: Seq<char>) -> bool {
    forall|k: int| 0 <= k < s.len() ==> #[trigger] s[k] == ' ' || !text::is_space(s[k])
}

/// A word that no number follows.
spec fn idle(w: Seq<char>) -> bool {
    w != "nodes"@ && w != "time"@
}

proof fn lemma_idle(w: Seq<char>)
    requires
        w.len() > 0,
        w[0] != 'n',
        w[0] != 't',
    ensures
        idle(w),
{
    reveal_strlit("nodes");
    reveal_strlit("time");
}

/// A number with a sign is a word.
proof fn lemma_number(n: int)
    ensures
        text::is_word(text::signed(n)),
        n >= 0 ==> text::is_word(text::decimal(n)),
        idle(text::signed(n)),
        n >= 0 ==> idle(text::decimal(n)),
{
    reveal_strlit("-");
    let a = if n < 0 {
        -n
    } else {
        n
    };
    text::lemma_decimal(a);
    let d = text::decimal(a);
    assert forall|k: int| 0 <= k < d.len() implies !text::is_space(#[trigger] d[k]) by {
        assert('0' <= d[k] && d[k] <= '9');
    }
    assert('0' <= d[0] && d[0] <= '9');
    let s = text::signed(n);
    assert forall|k: int| 0 <= k < s.len() implies !text::is_space(#[trigger] s[k]) by {
        if n < 0 && k > 0 {
            assert(s[k] == d[k - 1]);
        }
    }
    lemma_idle(s);
    lemma_idle(d);
}

proof fn lemma_square(s: int)
    ensures
        types::square_name(s).len() == 2,
        'a' <= types::square_name(s)[0] && types::square_name(s)[0] <= 'h',
        '1' <= types::square_name(s)[1] && types::square_name(s)[1] <= '8',
{
    reveal_strlit("a");
    reveal_strlit("b");
    reveal_strlit("c");
    reveal_strlit("d");
    reveal_strlit("e");
    reveal_strlit("f");
    reveal_strlit("g");
    reveal_strlit("h");
    reveal_strlit("1");
    reveal_strlit("2");
    reveal_strlit("3");
    reveal_strlit("4");
    reveal_strlit("5");
    reveal_strlit("6");
    reveal_strlit("7");
    reveal_strlit("8");
}

/// A move is a word.
proof fn lemma_move(m: RawMove)
    ensures
        text::is_word(m.uci_spec()),
        idle(m.uci_spec()),
{
    let to = if m.kind_spec() == types::CASTLE {
        8 * (m.from_sq() / 8) + (if m.to_sq() > m.from_sq() {
            6int
        } else {
            2
        })
    } else {
        m.to_sq()
    };
    lemma_square(m.from_sq());
    lemma_square(to);
    reveal_strlit("n");
    reveal_strlit("b");
    reveal_strlit("r");
    reveal_strlit("q");
    let a = types::square_name(m.from_sq());
    let b = types::square_name(to);
    let c = types::promotion_letter(m.promotion_spec());
    let s = m.uci_spec();
    assert(s =~= a + b + c);
    assert forall|k: int| 0 <= k < s.len() implies !text::is_space(#[trigger] s[k]) by {
        if k < 2 {
            assert(s[k] == a[k]);
        } else if k < 4 {
            assert(s[k] == b[k - 2]);
        } else {
            assert(s[k] == c[k - 4]);
        }
    }
    assert(s[0] == a[0]);
    lemma_idle(s);
}

/// The words of a line of moves are the moves.
proof fn lemma_pv(pv: Seq<RawMove>, n: int)
    requires
        0 <= n <= pv.len(),
    ensures
        text::words(pv_text(pv, n)).len() == n,
        forall|k: int| 0 <= k < n ==> idle(#[trigger] text::words(pv_text(pv, n))[k]),
        plain(pv_text(pv, n)),
    decreases n,
{
    if n > 0 {
        let m = pv[n - 1].uci_spec();
        lemma_move(pv[n - 1]);
        text::lemma_word(m);
        if n > 1 {
            lemma_pv(pv, n - 1);
            text::lemma_words_join(pv_text(pv, n - 1), m);
            lemma_plain_join(pv_text(pv, n - 1), m);
        }
    }
}

proof fn lemma_plain_join(a: Seq<char>, b: Seq<char>)
    requires
        plain(a),
        plain(b),
    ensures
        plain(a + " "@ + b),
{
    reveal_strlit(" ");
    let s = a + " "@ + b;
    assert forall|k: int| 0 <= k < s.len() implies #[trigger] s[k] == ' ' || !text::is_space(
        s[k],
    ) by {
        if k < a.len() {
            assert(s[k] == a[k]);
        } else if k > a.len() {
            assert(s[k] == b[k - a.len() - 1]);
        }
    }
}

/// The words of an info line up to its moves.
spec fn head_words(r: SearchSummary) -> Seq<Seq<char>> {
    seq![
        "depth"@,
        text::signed(r.depth as int),
        "score"@,
        match r.mate {
            Some(_) => "mate"@,
            None => "cp"@,
        },
        text::signed(
            match r.mate {
                Some(n) => n as int,
                None => r.score as int,
            },
        ),
        "nodes"@,
        text::decimal(r.nodes as int),
        "nps"@,
        text::decimal(r.nps as int),
        "time"@,
        text::decimal(r.time_ms as int),
        "pv"@,
    ]
}

/// What the fixed words of an info line are made of.
proof fn lemma_fixed_words()
    ensures
        "info depth "@ == "info "@ + "depth"@ + " "@,
        " score "@ == " "@ + "score"@ + " "@,
        "mate "@ == "mate"@ + " "@,
        "cp "@ == "cp"@ + " "@,
        " nodes "@ == " "@ + "nodes"@ + " "@,
        " nps "@ == " "@ + "nps"@ + " "@,
        " time "@ == " "@ + "time"@ + " "@,
        " pv "@ == " "@ + "pv"@ + " "@,
        text::is_word("depth"@) && idle("depth"@),
        text::is_word("score"@) && idle("score"@),
        text::is_word("mate"@) && idle("mate"@),
        text::is_word("cp"@) && idle("cp"@),
        text::is_word("nodes"@),
        text::is_word("nps"@) && idle("nps"@),
        text::is_word("time"@),
        "nodes"@ != "time"@,
        text::is_word("pv"@) && idle("pv"@),
        "info "@.len() == 5 && plain("info "@),
{
    reveal_strlit("info ");
    reveal_strlit("info depth ");
    reveal_strlit("depth");
    reveal_strlit(" score ");
    reveal_strlit("score");
    reveal_strlit("mate ");
    reveal_strlit("mate");
    reveal_strlit("cp ");
    reveal_strlit("cp");
    reveal_strlit(" nodes ");
    reveal_strlit("nodes");
    reveal_strlit(" nps ");
    reveal_strlit("nps");
    reveal_strlit(" time ");
    reveal_strlit("time");
    reveal_strlit(" pv ");
    reveal_strlit("pv");
    reveal_strlit(" ");
    assert("info depth "@ =~= "info "@ + "depth"@ + " "@);
    assert(" score "@ =~= " "@ + "score"@ + " "@);
    assert("mate "@ =~= "mate"@ + " "@);
    assert("cp "@ =~= "cp"@ + " "@);
    assert(" nodes "@ =~= " "@ + "nodes"@ + " "@);
    assert(" nps "@ =~= " "@ + "nps"@ + " "@);
    assert(" time "@ =~= " "@ + "time"@ + " "@);
    assert(" pv "@ =~= " "@ + "pv"@ + " "@);
    lemma_idle("depth"@);
    lemma_idle("score"@);
    lemma_idle("mate"@);
    lemma_idle("cp"@);
    lemma_idle("pv"@);
}

/// A fixed word with spaces round it, between two texts.
proof fn lemma_glue(front: Seq<char>, a: Seq<char>, fixed: Seq<char>, w: Seq<char>, b: Seq<char>)
    requires
        fixed == " "@ + w + " "@,
    ensures
        front + a + fixed + b == front + (a + " "@ + w + " "@ + b),
{
    assert(front + a + fixed + b =~= front + (a + " "@ + w + " "@ + b));
}

/// The words of an info line.
#[verifier::spinoff_prover]
proof fn lemma_info(r: SearchSummary)
    ensures
        text::starts(info_line(r), "info "@),
        plain(info_line(r)),
        text::words(info_line(r).skip(5)) == head_words(r) + text::words(
            pv_text(r.pv@, r.pv@.len() as int),
        ),
{
    lemma_fixed_words();
    let w = head_words(r);
    let front = "info "@;
    lemma_number(r.depth as int);
    lemma_number(r.score as int);
    lemma_number(r.nodes as int);
    lemma_number(r.nps as int);
    lemma_number(r.time_ms as int);
    if let Some(n) = r.mate {
        lemma_number(n as int);
    }
    assert forall|k: int| 0 <= k < 12 implies text::is_word(#[trigger] w[k]) by {}
    let v = pv_text(r.pv@, r.pv@.len() as int);
    lemma_pv(r.pv@, r.pv@.len() as int);
    lemma_joined(w, 12);
    let a = joined(w, 12);
    text::lemma_words_join(a, v);
    lemma_plain_join(a, v);
    let rest = a + " "@ + v;
    lemma_same_line(r);
    assert(info_line(r) == front + rest);
    assert(info_line(r).skip(5) =~= rest);
    assert(info_line(r).take(5) =~= front);
    assert(w.take(12) =~= w);
    assert forall|k: int| 0 <= k < info_line(r).len() implies #[trigger] info_line(r)[k] == ' '
        || !text::is_space(info_line(r)[k]) by {
        if k >= 5 {
            assert(info_line(r)[k] == rest[k - 5]);
        } else {
            assert(info_line(r)[k] == front[k]);
        }
    }
}

/// The first `n` words with a space between each two.
spec fn joined(words: Seq<Seq<char>>, n: int) -> Seq<char>
    decreases n,
{
    if n <= 1 {
        words[0]
    } else {
        joined(words, n - 1) + " "@ + words[n - 1]
    }
}

proof fn lemma_joined(words: Seq<Seq<char>>, n: int)
    requires
        1 <= n <= words.len(),
        forall|k: int| 0 <= k < words.len() ==> text::is_word(#[trigger] words[k]),
    ensures
        text::words(joined(words, n)) == words.take(n),
        plain(joined(words, n)),
    decreases n,
{
    let w = words[n - 1];
    assert(text::is_word(w));
    text::lemma_word(w);
    if n == 1 {
        assert(words.take(1) =~= seq![w]);
    } else {
        lemma_joined(words, n - 1);
        text::lemma_words_join(joined(words, n - 1), w);
        lemma_plain_join(joined(words, n - 1), w);
        assert(words.take(n) =~= words.take(n - 1) + seq![w]);
    }
}

/// An info line is its words with spaces between them.
#[verifier::spinoff_prover]
proof fn lemma_same_line(r: SearchSummary)
    ensures
        info_line(r) == "info "@ + (joined(head_words(r), 12) + " "@ + pv_text(
            r.pv@,
            r.pv@.len() as int,
        )),
{
    lemma_fixed_words();
    let w = head_words(r);
    let f = "info "@;
    let v = pv_text(r.pv@, r.pv@.len() as int);
    reveal_with_fuel(joined, 2);
    let a0 = w[0];
    assert(joined(w, 1) == a0);
    let a1 = a0 + " "@ + w[1];
    assert(joined(w, 2) == a1);
    let a2 = a1 + " "@ + w[2];
    assert(joined(w, 3) == a2);
    let a3 = a2 + " "@ + w[3];
    assert(joined(w, 4) == a3);
    let a4 = a3 + " "@ + w[4];
    assert(joined(w, 5) == a4);
    let a5 = a4 + " "@ + w[5];
    assert(joined(w, 6) == a5);
    let a6 = a5 + " "@ + w[6];
    assert(joined(w, 7) == a6);
    let a7 = a6 + " "@ + w[7];
    assert(joined(w, 8) == a7);
    let a8 = a7 + " "@ + w[8];
    assert(joined(w, 9) == a8);
    let a9 = a8 + " "@ + w[9];
    assert(joined(w, 10) == a9);
    let a10 = a9 + " "@ + w[10];
    assert(joined(w, 11) == a10);
    let a11 = a10 + " "@ + w[11];
    assert(joined(w, 12) == a11);
    assert(f + w[0] + " "@ + w[1] =~= f + a1);
    lemma_glue(f, a1, " score "@, w[2], score_text(r));
    assert(score_text(r) == w[3] + " "@ + w[4]);
    assert(a1 + " "@ + w[2] + " "@ + (w[3] + " "@ + w[4]) =~= a4);
    lemma_glue(f, a4, " nodes "@, w[5], w[6]);
    lemma_glue(f, a6, " nps "@, w[7], w[8]);
    lemma_glue(f, a8, " time "@, w[9], w[10]);
    lemma_glue(f, a10, " pv "@, w[11], v);
}

proof fn lemma_idle_words(k: Known, words: Seq<Seq<char>>, from: int, n: int)
    requires
        1 <= from <= n <= words.len(),
        forall|i: int| from - 1 <= i < n - 1 ==> idle(#[trigger] words[i]),
    ensures
        after_words(k, words, n) == after_words(k, words, from),
    decreases n,
{
    if n > from {
        lemma_idle_words(k, words, from, n - 1);
        assert(idle(words[n - 2]));
    }
}

/// Reading the transcript of a search gives its nodes, its time and its move.
pub proof fn law_transcript_reads_back(r: SearchSummary)
    ensures
        ({
            let lines = text::lines(search_text(Some(r)));
            after_lines(lines, lines.len() as int) == (Known {
                nodes: r.nodes as int,
                time_ms: r.time_ms as int,
                best: r.best.uci_spec(),
            })
        }),
{
    let first = info_line(r);
    let best = r.best.uci_spec();
    let second = "bestmove "@ + best;
    let whole = search_text(Some(r));
    lemma_info(r);
    lemma_move(r.best);
    reveal_strlit("info ");
    reveal_strlit("bestmove ");
    reveal_strlit("\n");
    assert(first.len() >= 5);
    assert forall|k: int| 0 <= k < first.len() implies #[trigger] first[k] != '\n' by {
        assert(first[k] == ' ' || !text::is_space(first[k]));
    }
    assert(first.last() != '\r') by {
        assert(first[first.len() - 1] == ' ' || !text::is_space(first[first.len() - 1]));
    }
    assert forall|k: int| 0 <= k < second.len() implies #[trigger] second[k] != '\n' && second[k]
        != '\r' by {
        if k >= 9 {
            assert(second[k] == best[k - 9]);
        }
    }
    assert(second[second.len() - 1] != '\r');
    let empty = Seq::<char>::empty();
    assert(whole =~= first + "\n"@ + (second + "\n"@ + empty));
    text::lemma_first_line(second, empty);
    text::lemma_first_line(first, second + "\n"@ + empty);
    let lines = text::lines(whole);
    assert(lines =~= seq![first, second]);
    let words = text::words(first.skip(5));
    let head = head_words(r);
    let k0 = after_lines(lines, 0);
    lemma_number(r.depth as int);
    lemma_number(r.score as int);
    lemma_number(r.nodes as int);
    lemma_number(r.nps as int);
    lemma_number(r.time_ms as int);
    if let Some(n) = r.mate {
        lemma_number(n as int);
    }
    lemma_fixed_words();
    let v = text::words(pv_text(r.pv@, r.pv@.len() as int));
    lemma_pv(r.pv@, r.pv@.len() as int);
    assert forall|i: int| 0 <= i < words.len() && i != 5 && i != 9 implies idle(
        #[trigger] words[i],
    ) by {
        if i < 12 {
            assert(words[i] == head[i]);
        } else {
            assert(words[i] == v[i - 12]);
        }
    }
    text::law_decimal_reads_back(r.nodes as int);
    text::law_decimal_reads_back(r.time_ms as int);
    assert(words[5] == "nodes"@ && words[6] == text::decimal(r.nodes as int));
    assert(words[9] == "time"@ && words[10] == text::decimal(r.time_ms as int));
    lemma_idle_words(k0, words, 1, 6);
    let k7 = after_words(k0, words, 7);
    assert(k7 == (Known { nodes: r.nodes as int, ..k0 }));
    lemma_idle_words(k0, words, 7, 10);
    let k11 = after_words(k0, words, 11);
    assert(k11 == (Known { time_ms: r.time_ms as int, ..k7 }));
    lemma_idle_words(k0, words, 11, words.len() as int);
    assert(after_line(k0, first) == k11);
    assert(!text::starts(second, "info "@)) by {
        assert(second[0] == 'b');
        assert("info "@[0] == 'i');
    }
    assert(text::starts(second, "bestmove "@)) by {
        assert(second.take(9) =~= "bestmove "@);
    }
    assert(second.skip(9) =~= best);
    assert(lines[0] == first && lines[1] == second);
    reveal_with_fuel(after_lines, 3);
}

/// A flag with a number sets what it names, to that number, and nothing else.
pub proof fn law_options_are_told(o: SearchOptions, token: Seq<char>, n: int)
    requires
        0 <= n,
    ensures
        n <= i32::MAX ==> with_flag(o, token, "--depth"@, text::decimal(n)) == Ok::<_, Complaint>(
            (SearchOptions { depth: n as i32, ..o }),
        ),
        n <= usize::MAX ==> with_flag(o, token, "--threads"@, text::decimal(n)) == Ok::<
            _,
            Complaint,
        >((SearchOptions { threads: n as usize, ..o })),
        n <= usize::MAX ==> with_flag(o, token, "--hash"@, text::decimal(n)) == Ok::<_, Complaint>(
            (SearchOptions { hash: n as usize, ..o }),
        ),
{
    text::law_decimal_reads_back(n);
    reveal_strlit("--depth");
    reveal_strlit("--threads");
    reveal_strlit("--hash");
    assert("--depth"@.len() == 7 && "--threads"@.len() == 9 && "--hash"@.len() == 6);
}

} // verus!
