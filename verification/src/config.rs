//! The options of the engine.
use vstd::prelude::*;
use crate::text;

verus! {

/// Size of the transposition table in megabytes.
pub const DEFAULT_HASH_MB: usize = 64;

/// Number of search threads.
pub const DEFAULT_THREADS: usize = 1;

/// Depth limit of a search; 0 for none.
pub const DEFAULT_SEARCH_DEPTH: i32 = 0;

/// Which evaluation the search uses.
#[derive(Debug, Clone, Copy, PartialEq, Eq, Structural)]
pub enum EvalMode {
    /// The hand-written evaluation.
    Classical,
    /// The network.
    Nnue,
}

/// The evaluation that a text names, whatever its capitals and the space around
/// it.
pub open spec fn eval_mode_of(s: Seq<char>) -> Option<EvalMode> {
    let word = text::trimmed(s).map_values(|c: char| text::lower(c));
    if word == "classical"@ {
        Some(EvalMode::Classical)
    } else if word == "nnue"@ {
        Some(EvalMode::Nnue)
    } else {
        None
    }
}

impl EvalMode {
    /// The name of the evaluation.
    pub open spec fn name(self) -> Seq<char> {
        match self {
            EvalMode::Classical => "classical"@,
            EvalMode::Nnue => "nnue"@,
        }
    }

    /// The name of the evaluation.
    pub fn as_str(self) -> (r: &'static str)
        ensures
            r@ == self.name(),
    {
        match self {
            EvalMode::Classical => "classical",
            EvalMode::Nnue => "nnue",
        }
    }

    /// The evaluation that a text names.
    pub fn parse(s: &str) -> (r: Option<EvalMode>)
        ensures
            r == eval_mode_of(s@),
    {
        let word: Vec<char> = text::chars_of(text::trim(s));
        proof {
            reveal_strlit("classical");
            reveal_strlit("nnue");
        }
        if text::same_ignoring_case(word.as_slice(), "classical") {
            Some(EvalMode::Classical)
        } else if text::same_ignoring_case(word.as_slice(), "nnue") {
            Some(EvalMode::Nnue)
        } else {
            None
        }
    }
}

impl Default for EvalMode {
    fn default() -> (r: Self)
        ensures
            r == EvalMode::Classical,
    {
        EvalMode::Classical
    }
}

/// The choices of the evaluation, as a UCI option lists them.
pub const EVAL_VAR: &'static str = "var Classical var classical var NNUE var nnue";

/// The options of the engine.
#[derive(Debug)]
pub struct EngineConfig {
    /// Size of the transposition table in megabytes.
    pub hash_mb: usize,
    pub threads: usize,
    /// Depth limit of a search; 0 for none.
    pub search_depth: i32,
    pub book_enabled: bool,
    /// Path of an opening book; empty for one next to the executable.
    pub book_path: String,
    /// Path of the endgame tables; empty for none.
    pub syzygy_path: String,
    /// Path of the evaluation parameters; empty for the defaults.
    pub eval_params_path: String,
    pub eval: EvalMode,
    /// Path of the network; empty for the one that the engine comes with.
    pub nnue_path: String,
    /// How many lines of the root are reported.
    pub multi_pv: usize,
    pub ponder: bool,
    pub debug: bool,
}

/// The values of the options.
pub struct Options {
    pub hash_mb: int,
    pub threads: int,
    pub search_depth: int,
    pub book_enabled: bool,
    pub book_path: Seq<char>,
    pub syzygy_path: Seq<char>,
    pub eval_params_path: Seq<char>,
    pub eval: EvalMode,
    pub nnue_path: Seq<char>,
    pub multi_pv: int,
    pub ponder: bool,
    pub debug: bool,
}

/// The texts that switch an option on.
pub open spec fn is_yes(v: Seq<char>) -> bool {
    v == "true"@ || v == "True"@ || v == "1"@ || v == "yes"@
}

/// Whether a text switches an option on.
fn yes(v: &str) -> (r: bool)
    ensures
        r == is_yes(v@),
{
    text::same(v, "true") || text::same(v, "True") || text::same(v, "1") || text::same(v, "yes")
}

/// The natural number of an option value, where a `usize` can hold it.
pub open spec fn size_of_text(v: Seq<char>) -> Option<int> {
    match text::natural(v) {
        Some(n) => if n <= usize::MAX {
            Some(n)
        } else {
            None
        },
        None => None,
    }
}

/// The integer of an option value, where an `i32` can hold it.
pub open spec fn depth_of_text(v: Seq<char>) -> Option<int> {
    match text::integer(v) {
        Some(n) => if i32::MIN <= n <= i32::MAX {
            Some(n)
        } else {
            None
        },
        None => None,
    }
}

/// The options with one of them set, where the name is known and the value can
/// be read.
pub open spec fn with_option(o: Options, name: Seq<char>, v: Seq<char>) -> Option<Options> {
    if name == "Hash"@ {
        match size_of_text(v) {
            Some(n) => Some(
                Options {
                    hash_mb: if n < 1 {
                        1
                    } else {
                        n
                    },
                    ..o
                },
            ),
            None => None,
        }
    } else if name == "Threads"@ {
        match size_of_text(v) {
            Some(n) => Some(
                Options {
                    threads: if n < 1 {
                        1
                    } else if n > 1024 {
                        1024
                    } else {
                        n
                    },
                    ..o
                },
            ),
            None => None,
        }
    } else if name == "SearchDepth"@ {
        match depth_of_text(v) {
            Some(n) => Some(
                Options {
                    search_depth: if n < 0 {
                        0
                    } else {
                        n
                    },
                    ..o
                },
            ),
            None => None,
        }
    } else if name == "BookEnabled"@ {
        Some(Options { book_enabled: is_yes(v), ..o })
    } else if name == "BookPath"@ {
        Some(Options { book_path: v, ..o })
    } else if name == "SyzygyPath"@ {
        Some(Options { syzygy_path: v, ..o })
    } else if name == "EvalParamsPath"@ {
        Some(Options { eval_params_path: v, ..o })
    } else if name == "Eval"@ {
        match eval_mode_of(v) {
            Some(mode) => Some(Options { eval: mode, ..o }),
            None => None,
        }
    } else if name == "NNUEFile"@ {
        Some(Options { nnue_path: v, ..o })
    } else if name == "MultiPV"@ {
        match size_of_text(v) {
            Some(n) => Some(
                Options {
                    multi_pv: if n < 1 {
                        1
                    } else {
                        n
                    },
                    ..o
                },
            ),
            None => None,
        }
    } else if name == "Debug"@ {
        Some(Options { debug: is_yes(v), ..o })
    } else if name == "Ponder"@ {
        Some(Options { ponder: is_yes(v), ..o })
    } else {
        None
    }
}

/// What setting an option comes to: nothing without a value.
pub open spec fn set(o: Options, name: Seq<char>, value: Option<&str>) -> Option<Options> {
    match value {
        Some(v) => with_option(o, name, v@),
        None => None,
    }
}

/// The options as UCI lists them.
pub open spec fn listed(o: Options) -> Seq<Seq<char>> {
    seq![
        "option name Hash type spin default "@ + text::decimal(o.hash_mb) + " min 1 max 1048576"@,
        "option name Threads type spin default "@ + text::decimal(o.threads) + " min 1 max 1024"@,
        "option name SearchDepth type spin default "@ + text::signed(o.search_depth)
            + " min 0 max 64"@,
        "option name BookEnabled type check default "@ + text::bool_text(o.book_enabled),
        "option name BookPath type string default "@ + o.book_path,
        "option name SyzygyPath type string default "@ + o.syzygy_path,
        "option name EvalParamsPath type string default "@ + o.eval_params_path,
        "option name Eval type combo default "@ + o.eval.name() + " "@ + EVAL_VAR@,
        "option name NNUEFile type string default "@ + o.nnue_path,
        "option name MultiPV type spin default "@ + text::decimal(o.multi_pv) + " min 1 max 4"@,
        "option name Debug type check default "@ + text::bool_text(o.debug),
        "option name Ponder type check default "@ + text::bool_text(o.ponder),
    ]
}

impl EngineConfig {
    /// The values of the options.
    pub open spec fn view(&self) -> Options {
        Options {
            hash_mb: self.hash_mb as int,
            threads: self.threads as int,
            search_depth: self.search_depth as int,
            book_enabled: self.book_enabled,
            book_path: self.book_path@,
            syzygy_path: self.syzygy_path@,
            eval_params_path: self.eval_params_path@,
            eval: self.eval,
            nnue_path: self.nnue_path@,
            multi_pv: self.multi_pv as int,
            ponder: self.ponder,
            debug: self.debug,
        }
    }

    /// Sets an option; false, and nothing changes, where the name is unknown or
    /// the value cannot be read.
    #[verifier::spinoff_prover]
    pub fn set_option(&mut self, name: &str, value: Option<&str>) -> (r: bool)
        ensures
            match set(old(self)@, name@, value) {
                Some(o) => r && final(self)@ == o,
                None => !r && final(self)@ == old(self)@,
            },
    {
        let v: &str = match value {
            Some(v) => v,
            None => {
                return false;
            },
        };
        if text::same(name, "Hash") {
            match text::parse_usize(v) {
                Some(n) => {
                    self.hash_mb = if n < 1 {
                        1
                    } else {
                        n
                    };
                    true
                },
                None => false,
            }
        } else if text::same(name, "Threads") {
            match text::parse_usize(v) {
                Some(n) => {
                    self.threads = if n < 1 {
                        1
                    } else if n > 1024 {
                        1024
                    } else {
                        n
                    };
                    true
                },
                None => false,
            }
        } else if text::same(name, "SearchDepth") {
            match text::parse_i32(v) {
                Some(n) => {
                    self.search_depth = if n < 0 {
                        0
                    } else {
                        n
                    };
                    true
                },
                None => false,
            }
        } else if text::same(name, "BookEnabled") {
            self.book_enabled = yes(v);
            true
        } else if text::same(name, "BookPath") {
            self.book_path = v.to_owned();
            true
        } else if text::same(name, "SyzygyPath") {
            self.syzygy_path = v.to_owned();
            true
        } else if text::same(name, "EvalParamsPath") {
            self.eval_params_path = v.to_owned();
            true
        } else if text::same(name, "Eval") {
            match EvalMode::parse(v) {
                Some(mode) => {
                    self.eval = mode;
                    true
                },
                None => false,
            }
        } else if text::same(name, "NNUEFile") {
            self.nnue_path = v.to_owned();
            true
        } else if text::same(name, "MultiPV") {
            match text::parse_usize(v) {
                Some(n) => {
                    self.multi_pv = if n < 1 {
                        1
                    } else {
                        n
                    };
                    true
                },
                None => false,
            }
        } else if text::same(name, "Debug") {
            self.debug = yes(v);
            true
        } else if text::same(name, "Ponder") {
            self.ponder = yes(v);
            true
        } else {
            false
        }
    }

    /// The options as UCI lists them, one to a line.
    pub fn option_log(&self) -> (r: Vec<String>)
        ensures
            r@.len() == listed(self@).len(),
            forall|i: int| 0 <= i < r@.len() ==> (#[trigger] r@[i])@ == listed(self@)[i],
    {
        let mut hash: String = "option name Hash type spin default ".to_owned();
        text::append_decimal(&mut hash, self.hash_mb as u64);
        hash.append(" min 1 max 1048576");
        let mut threads: String = "option name Threads type spin default ".to_owned();
        text::append_decimal(&mut threads, self.threads as u64);
        threads.append(" min 1 max 1024");
        let mut depth: String = "option name SearchDepth type spin default ".to_owned();
        text::append_signed(&mut depth, self.search_depth as i64);
        depth.append(" min 0 max 64");
        let mut eval: String = "option name Eval type combo default ".to_owned();
        eval.append(self.eval.as_str());
        eval.append(" ");
        eval.append(EVAL_VAR);
        let mut multi_pv: String = "option name MultiPV type spin default ".to_owned();
        text::append_decimal(&mut multi_pv, self.multi_pv as u64);
        multi_pv.append(" min 1 max 4");
        let mut out: Vec<String> = Vec::new();
        out.push(hash);
        out.push(threads);
        out.push(depth);
        out.push(
            joined("option name BookEnabled type check default ", text::bool_str(self.book_enabled)),
        );
        out.push(joined("option name BookPath type string default ", self.book_path.as_str()));
        out.push(joined("option name SyzygyPath type string default ", self.syzygy_path.as_str()));
        out.push(
            joined(
                "option name EvalParamsPath type string default ",
                self.eval_params_path.as_str(),
            ),
        );
        out.push(eval);
        out.push(joined("option name NNUEFile type string default ", self.nnue_path.as_str()));
        out.push(multi_pv);
        out.push(joined("option name Debug type check default ", text::bool_str(self.debug)));
        out.push(joined("option name Ponder type check default ", text::bool_str(self.ponder)));
        out
    }
}

/// Two texts one after the other.
fn joined(a: &str, b: &str) -> (r: String)
    ensures
        r@ == a@ + b@,
{
    let mut s: String = a.to_owned();
    s.append(b);
    s
}

impl Default for EngineConfig {
    fn default() -> (r: Self)
        ensures
            r@ == (Options {
                hash_mb: 64,
                threads: 1,
                search_depth: 0,
                book_enabled: true,
                book_path: Seq::empty(),
                syzygy_path: Seq::empty(),
                eval_params_path: Seq::empty(),
                eval: EvalMode::Classical,
                nnue_path: Seq::empty(),
                multi_pv: 1,
                ponder: false,
                debug: false,
            }),
    {
        let r = EngineConfig {
            hash_mb: DEFAULT_HASH_MB,
            threads: DEFAULT_THREADS,
            search_depth: DEFAULT_SEARCH_DEPTH,
            book_enabled: true,
            book_path: String::new(),
            syzygy_path: String::new(),
            eval_params_path: String::new(),
            eval: EvalMode::Classical,
            nnue_path: String::new(),
            multi_pv: 1,
            ponder: false,
            debug: false,
        };
        assert(r.book_path@ =~= Seq::empty());
        r
    }
}

/// The names of the options, in the order in which UCI lists them.
pub open spec fn option_names() -> Seq<Seq<char>> {
    seq![
        "Hash"@,
        "Threads"@,
        "SearchDepth"@,
        "BookEnabled"@,
        "BookPath"@,
        "SyzygyPath"@,
        "EvalParamsPath"@,
        "Eval"@,
        "NNUEFile"@,
        "MultiPV"@,
        "Debug"@,
        "Ponder"@,
    ]
}

/// The kinds of the options, in the same order.
pub open spec fn option_kinds() -> Seq<Seq<char>> {
    seq![
        "spin"@,
        "spin"@,
        "spin"@,
        "check"@,
        "string"@,
        "string"@,
        "string"@,
        "combo"@,
        "string"@,
        "spin"@,
        "check"@,
        "check"@,
    ]
}

/// The values of the options as texts, in the same order.
pub open spec fn shown(o: Options) -> Seq<Seq<char>> {
    seq![
        text::decimal(o.hash_mb),
        text::decimal(o.threads),
        text::signed(o.search_depth),
        text::bool_text(o.book_enabled),
        o.book_path,
        o.syzygy_path,
        o.eval_params_path,
        o.eval.name(),
        o.nnue_path,
        text::decimal(o.multi_pv),
        text::bool_text(o.debug),
        text::bool_text(o.ponder),
    ]
}

/// What a line says behind the value.
pub open spec fn option_ranges() -> Seq<Seq<char>> {
    seq![
        " min 1 max 1048576"@,
        " min 1 max 1024"@,
        " min 0 max 64"@,
        ""@,
        ""@,
        ""@,
        ""@,
        " "@ + EVAL_VAR@,
        ""@,
        " min 1 max 4"@,
        ""@,
        ""@,
    ]
}

/// The line for one option.
pub open spec fn option_line(
    name: Seq<char>,
    kind: Seq<char>,
    value: Seq<char>,
    range: Seq<char>,
) -> Seq<char> {
    "option name "@ + name + " type "@ + kind + " default "@ + value + range
}

/// A line that is written in one piece up to the value.
proof fn lemma_line(
    start: Seq<char>,
    name: Seq<char>,
    kind: Seq<char>,
    value: Seq<char>,
    range: Seq<char>,
)
    requires
        start == "option name "@ + name + " type "@ + kind + " default "@,
    ensures
        start + value + range == option_line(name, kind, value, range),
{
}

/// No option is named twice.
proof fn lemma_names_differ()
    ensures
        forall|i: int, j: int|
            0 <= i < j < 12 ==> #[trigger] option_names()[i] != #[trigger] option_names()[j],
{
    reveal_strlit("Hash");
    reveal_strlit("Threads");
    reveal_strlit("SearchDepth");
    reveal_strlit("BookEnabled");
    reveal_strlit("BookPath");
    reveal_strlit("SyzygyPath");
    reveal_strlit("EvalParamsPath");
    reveal_strlit("Eval");
    reveal_strlit("NNUEFile");
    reveal_strlit("MultiPV");
    reveal_strlit("Debug");
    reveal_strlit("Ponder");
    let names = option_names();
    assert(names[0].len() == 4 && names[0][0] == 'H');
    assert(names[1].len() == 7 && names[1][0] == 'T');
    assert(names[2].len() == 11 && names[2][0] == 'S');
    assert(names[3].len() == 11 && names[3][0] == 'B');
    assert(names[4].len() == 8 && names[4][0] == 'B');
    assert(names[5].len() == 10 && names[5][0] == 'S');
    assert(names[6].len() == 14 && names[6][0] == 'E');
    assert(names[7].len() == 4 && names[7][0] == 'E');
    assert(names[8].len() == 8 && names[8][0] == 'N');
    assert(names[9].len() == 7 && names[9][0] == 'M');
    assert(names[10].len() == 5 && names[10][0] == 'D');
    assert(names[11].len() == 6 && names[11][0] == 'P');
    assert forall|i: int, j: int| 0 <= i < j < 12 implies #[trigger] names[i]
        != #[trigger] names[j] by {
        assert(names[i].len() != names[j].len() || names[i][0] != names[j][0]);
    }
}

/// A value that an option can be given.
spec fn usable_value(name: Seq<char>) -> Seq<char> {
    if name == "Eval"@ {
        "nnue"@
    } else {
        "1"@
    }
}

proof fn lemma_usable_values()
    ensures
        text::natural("1"@) == Some(1int),
        text::integer("1"@) == Some(1int),
        eval_mode_of("nnue"@) == Some(EvalMode::Nnue),
{
    reveal_strlit("1");
    let one = "1"@;
    assert(one.drop_last() =~= Seq::empty());
    assert(text::value(one.drop_last()) == 0);
    assert(text::value(one) == 1);
    reveal_strlit("nnue");
    reveal_strlit("classical");
    let word = "nnue"@;
    assert(text::trimmed(word) == word);
    assert(word.map_values(|c: char| text::lower(c)) =~= word);
}

/// The options that are listed are those that can be set: one line for each,
/// with its name and its value, no name twice.
pub proof fn law_options_are_listed(o: Options)
    ensures
        listed(o).len() == 12,
        forall|i: int, j: int|
            0 <= i < j < 12 ==> #[trigger] option_names()[i] != #[trigger] option_names()[j],
        forall|i: int|
            0 <= i < 12 ==> #[trigger] listed(o)[i] == option_line(
                option_names()[i],
                option_kinds()[i],
                shown(o)[i],
                option_ranges()[i],
            ),
        forall|name: Seq<char>| #[trigger]
            option_names().contains(name) <==> exists|v: Seq<char>|
                #[trigger] with_option(o, name, v) is Some,
{
    lemma_names_differ();
    lemma_lines(o);
    lemma_usable_values();
    assert forall|name: Seq<char>| #[trigger] option_names().contains(name) implies exists|
        v: Seq<char>,
    | #[trigger] with_option(o, name, v) is Some by {
        assert(with_option(o, name, usable_value(name)) is Some);
    }
    let names = option_names();
    assert forall|name: Seq<char>, v: Seq<char>| #[trigger]
        with_option(o, name, v) is Some implies names.contains(name) by {
        assert(name == names[0] || name == names[1] || name == names[2] || name == names[3] || name
            == names[4] || name == names[5] || name == names[6] || name == names[7] || name
            == names[8] || name == names[9] || name == names[10] || name == names[11]);
    }
}

proof fn lemma_lines(o: Options)
    ensures
        forall|i: int|
            0 <= i < 12 ==> #[trigger] listed(o)[i] == option_line(
                option_names()[i],
                option_kinds()[i],
                shown(o)[i],
                option_ranges()[i],
            ),
{
    lemma_starts();
    reveal_strlit("");
    let k = option_kinds();
    let s = shown(o);
    let r = option_ranges();
    lemma_line("option name Hash type spin default "@, "Hash"@, k[0], s[0], r[0]);
    lemma_line("option name Threads type spin default "@, "Threads"@, k[1], s[1], r[1]);
    lemma_line("option name SearchDepth type spin default "@, "SearchDepth"@, k[2], s[2], r[2]);
    lemma_line("option name BookEnabled type check default "@, "BookEnabled"@, k[3], s[3], r[3]);
    lemma_line("option name BookPath type string default "@, "BookPath"@, k[4], s[4], r[4]);
    lemma_line("option name SyzygyPath type string default "@, "SyzygyPath"@, k[5], s[5], r[5]);
    lemma_line(
        "option name EvalParamsPath type string default "@,
        "EvalParamsPath"@,
        k[6],
        s[6],
        r[6],
    );
    lemma_line("option name Eval type combo default "@, "Eval"@, k[7], s[7], r[7]);
    lemma_line("option name NNUEFile type string default "@, "NNUEFile"@, k[8], s[8], r[8]);
    lemma_line("option name MultiPV type spin default "@, "MultiPV"@, k[9], s[9], r[9]);
    lemma_line("option name Debug type check default "@, "Debug"@, k[10], s[10], r[10]);
    lemma_line("option name Ponder type check default "@, "Ponder"@, k[11], s[11], r[11]);
    assert forall|i: int| 0 <= i < 12 implies #[trigger] listed(o)[i] == option_line(
        option_names()[i],
        k[i],
        s[i],
        r[i],
    ) by {
        assert(listed(o)[3] + ""@ =~= listed(o)[3]);
        assert(listed(o)[4] + ""@ =~= listed(o)[4]);
        assert(listed(o)[5] + ""@ =~= listed(o)[5]);
        assert(listed(o)[6] + ""@ =~= listed(o)[6]);
        assert(listed(o)[7] =~= "option name Eval type combo default "@ + s[7] + r[7]);
        assert(listed(o)[8] + ""@ =~= listed(o)[8]);
        assert(listed(o)[10] + ""@ =~= listed(o)[10]);
        assert(listed(o)[11] + ""@ =~= listed(o)[11]);
    }
}

/// What the lines say up to the value.
spec fn start_of(name: Seq<char>, kind: Seq<char>) -> Seq<char> {
    "option name "@ + name + " type "@ + kind + " default "@
}

proof fn lemma_starts()
    ensures
        "option name Hash type spin default "@ == start_of("Hash"@, "spin"@),
        "option name Threads type spin default "@ == start_of("Threads"@, "spin"@),
        "option name SearchDepth type spin default "@ == start_of("SearchDepth"@, "spin"@),
        "option name BookEnabled type check default "@ == start_of("BookEnabled"@, "check"@),
        "option name BookPath type string default "@ == start_of("BookPath"@, "string"@),
        "option name SyzygyPath type string default "@ == start_of("SyzygyPath"@, "string"@),
        "option name EvalParamsPath type string default "@ == start_of(
            "EvalParamsPath"@,
            "string"@,
        ),
        "option name Eval type combo default "@ == start_of("Eval"@, "combo"@),
        "option name NNUEFile type string default "@ == start_of("NNUEFile"@, "string"@),
        "option name MultiPV type spin default "@ == start_of("MultiPV"@, "spin"@),
        "option name Debug type check default "@ == start_of("Debug"@, "check"@),
        "option name Ponder type check default "@ == start_of("Ponder"@, "check"@),
{
    reveal_strlit("option name ");
    reveal_strlit(" type ");
    reveal_strlit(" default ");
    reveal_strlit("spin");
    reveal_strlit("check");
    reveal_strlit("string");
    reveal_strlit("combo");
    assert("option name Hash type spin default "@ =~= start_of("Hash"@, "spin"@)) by {
        reveal_strlit("option name Hash type spin default ");
        reveal_strlit("Hash");
    }
    assert("option name Threads type spin default "@ =~= start_of("Threads"@, "spin"@)) by {
        reveal_strlit("option name Threads type spin default ");
        reveal_strlit("Threads");
    }
    assert("option name SearchDepth type spin default "@ =~= start_of("SearchDepth"@, "spin"@)) by {
        reveal_strlit("option name SearchDepth type spin default ");
        reveal_strlit("SearchDepth");
    }
    assert("option name BookEnabled type check default "@ =~= start_of("BookEnabled"@, "check"@)) by {
        reveal_strlit("option name BookEnabled type check default ");
        reveal_strlit("BookEnabled");
    }
    assert("option name BookPath type string default "@ =~= start_of("BookPath"@, "string"@)) by {
        reveal_strlit("option name BookPath type string default ");
        reveal_strlit("BookPath");
    }
    assert("option name SyzygyPath type string default "@ =~= start_of("SyzygyPath"@, "string"@)) by {
        reveal_strlit("option name SyzygyPath type string default ");
        reveal_strlit("SyzygyPath");
    }
    assert("option name EvalParamsPath type string default "@ =~= start_of("EvalParamsPath"@, "string"@)) by {
        reveal_strlit("option name EvalParamsPath type string default ");
        reveal_strlit("EvalParamsPath");
    }
    assert("option name Eval type combo default "@ =~= start_of("Eval"@, "combo"@)) by {
        reveal_strlit("option name Eval type combo default ");
        reveal_strlit("Eval");
    }
    assert("option name NNUEFile type string default "@ =~= start_of("NNUEFile"@, "string"@)) by {
        reveal_strlit("option name NNUEFile type string default ");
        reveal_strlit("NNUEFile");
    }
    assert("option name MultiPV type spin default "@ =~= start_of("MultiPV"@, "spin"@)) by {
        reveal_strlit("option name MultiPV type spin default ");
        reveal_strlit("MultiPV");
    }
    assert("option name Debug type check default "@ =~= start_of("Debug"@, "check"@)) by {
        reveal_strlit("option name Debug type check default ");
        reveal_strlit("Debug");
    }
    assert("option name Ponder type check default "@ =~= start_of("Ponder"@, "check"@)) by {
        reveal_strlit("option name Ponder type check default ");
        reveal_strlit("Ponder");
    }
}

/// Setting an option changes what is listed for that option alone.
pub proof fn law_options_are_set_one_by_one(o: Options, i: int, v: Seq<char>)
    requires
        0 <= i < 12,
    ensures
        with_option(o, option_names()[i], v) matches Some(p) ==> forall|j: int|
            0 <= j < 12 && j != i ==> #[trigger] shown(p)[j] == shown(o)[j],
{
    lemma_names_differ();
    let names = option_names();
    assert(names[0] == "Hash"@ && names[1] == "Threads"@ && names[2] == "SearchDepth"@ && names[3]
        == "BookEnabled"@ && names[4] == "BookPath"@ && names[5] == "SyzygyPath"@ && names[6]
        == "EvalParamsPath"@ && names[7] == "Eval"@ && names[8] == "NNUEFile"@ && names[9]
        == "MultiPV"@ && names[10] == "Debug"@ && names[11] == "Ponder"@);
}

/// The options of a fresh engine, and those of one whose options were set, are
/// in range.
pub open spec fn in_range(o: Options) -> bool {
    o.hash_mb >= 1 && 1 <= o.threads <= 1024 && o.search_depth >= 0 && o.multi_pv >= 1
}

/// Setting an option keeps all options in range.
pub proof fn law_options_stay_in_range(o: Options, name: Seq<char>, value: Option<&str>)
    requires
        in_range(o),
    ensures
        set(o, name, value) matches Some(p) ==> in_range(p),
{
}

/// What an option is set to is what is listed for it: numbers within its range, texts as they
/// are, answers, and the names of evaluations.
pub proof fn law_set_values_are_listed(o: Options, i: int, n: int, v: Seq<char>)
    requires
        0 <= i < 12,
    ensures
        ({
            let name = option_names()[i];
            let p = with_option(o, name, v);
            &&& i == 4 || i == 5 || i == 6 || i == 8 ==> p is Some && shown(p->0)[i] == v
            &&& i == 3 || i == 10 || i == 11 ==> p is Some && (v == "true"@ ==> shown(p->0)[i]
                == "true"@) && (v == "false"@ ==> shown(p->0)[i] == "false"@)
            &&& (i == 0 || i == 9) && 1 <= n <= usize::MAX && v == text::decimal(n) ==> p is Some
                && shown(p->0)[i] == v
            &&& i == 1 && 1 <= n <= 1024 && v == text::decimal(n) ==> p is Some && shown(p->0)[i]
                == v
            &&& i == 7 && (v == "nnue"@ || v == "classical"@) ==> p is Some && shown(p->0)[i] == v
        }),
{
    lemma_names_differ();
    let names = option_names();
    assert(names[0] == "Hash"@ && names[1] == "Threads"@ && names[2] == "SearchDepth"@ && names[3]
        == "BookEnabled"@ && names[4] == "BookPath"@ && names[5] == "SyzygyPath"@ && names[6]
        == "EvalParamsPath"@ && names[7] == "Eval"@ && names[8] == "NNUEFile"@ && names[9]
        == "MultiPV"@ && names[10] == "Debug"@ && names[11] == "Ponder"@);
    if n >= 0 {
        text::law_decimal_reads_back(n);
    }
    reveal_strlit("true");
    reveal_strlit("True");
    reveal_strlit("1");
    reveal_strlit("yes");
    reveal_strlit("false");
    assert("false"@.len() == 5 && "true"@.len() == 4 && "True"@.len() == 4 && "1"@.len() == 1
        && "yes"@.len() == 3);
    lemma_usable_values();
    reveal_strlit("nnue");
    reveal_strlit("classical");
    let word = "classical"@;
    assert(text::trimmed(word) == word);
    assert(word.map_values(|c: char| text::lower(c)) =~= word);
    assert("nnue"@.len() == 4 && word.len() == 9);
}

} // verus!
