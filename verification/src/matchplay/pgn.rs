//! Games as PGN records.
use vstd::prelude::*;
use crate::board::Position;
use crate::board::rules;
use crate::matchplay::StdGame;
use crate::openings;
use crate::text;

verus! {

/// How many bytes a line may have.
pub const WIDTH: usize = 72;

/// What the records of a match have in common.
pub struct Heading<'a> {
    pub event: &'a str,
    /// The names of the two engines.
    pub white: &'a str,
    pub black: &'a str,
    pub time_control: &'a str,
}

/// Why a game cannot be written.
#[derive(Debug)]
pub enum PgnError {
    /// A move of a game is illegal.
    IllegalMove { uci: String, game_no: usize },
}

impl PgnError {
    /// The reason in words.
    pub fn message(&self) -> (r: String)
        ensures
            r@ == (match self {
                PgnError::IllegalMove { uci, game_no } => "cannot render game "@ + text::decimal(
                    *game_no as int,
                ) + " to SAN: illegal replay move "@ + uci@ + " in game "@ + text::decimal(
                    *game_no as int,
                ),
            }),
    {
        match self {
            PgnError::IllegalMove { uci, game_no } => {
                let mut out: String = "cannot render game ".to_owned();
                text::append_decimal(&mut out, *game_no as u64);
                out.append(" to SAN: illegal replay move ");
                out.append(uci.as_str());
                out.append(" in game ");
                text::append_decimal(&mut out, *game_no as u64);
                out
            },
        }
    }
}

// --- moves ----------------------------------------------------------------------------------------

/// The moves of a line in standard algebraic notation.
pub open spec fn sans(text: Seq<char>, line: Seq<Seq<char>>) -> Seq<Seq<char>>
    decreases line.len(),
{
    if line.len() == 0 {
        Seq::empty()
    } else {
        let t = openings::reached(text, line.drop_last())->0;
        sans(text, line.drop_last()).push(
            rules::san_text(t, rules::uci_step_of(t, line.last())->0),
        )
    }
}

/// The words of the move text: a number before each move of White.
pub open spec fn numbered(moves: Seq<Seq<char>>, n: int) -> Seq<Seq<char>>
    decreases n,
{
    if n <= 0 {
        Seq::empty()
    } else if (n - 1) % 2 == 0 {
        numbered(moves, n - 1).push(text::decimal((n - 1) / 2 + 1) + "."@).push(moves[n - 1])
    } else {
        numbered(moves, n - 1).push(moves[n - 1])
    }
}

/// Replays a line from the starting position; an error is the place of the first
/// illegal move.
fn notate(line: &Vec<String>) -> (r: Result<Vec<String>, usize>)
    ensures
        r is Ok <==> openings::reached(openings::start_text(), text::shown(line@)) is Some,
        r matches Ok(v) ==> text::shown(v@) == sans(openings::start_text(), text::shown(line@)),
        r matches Err(n) ==> n < line@.len() && openings::reached(
            openings::start_text(),
            text::shown(line@).take(n as int),
        ) is Some && openings::reached(
            openings::start_text(),
            text::shown(line@).take(n + 1),
        ) is None,
{
    let ghost all = text::shown(line@);
    let ghost t = openings::start_text();
    let mut pos: Position = Position::startpos();
    let mut out: Vec<String> = Vec::new();
    let mut n: usize = 0;
    assert(all.take(0) =~= Seq::<Seq<char>>::empty());
    assert(text::shown(out@) =~= Seq::<Seq<char>>::empty());
    while n < line.len()
        invariant
            n <= line@.len(),
            all == text::shown(line@),
            t == openings::start_text(),
            openings::reached(t, all.take(n as int)) == Some(pos.text_spec()),
            text::shown(out@) == sans(t, all.take(n as int)),
        decreases line@.len() - n,
    {
        let uci: &str = line[n].as_str();
        proof {
            assert(all.take(n + 1).drop_last() =~= all.take(n as int));
            assert(all.take(n + 1).last() == uci@);
        }
        let notation: Option<String> = pos.san_from_uci(uci);
        match pos.play_uci(uci) {
            Ok((child, _m)) => {
                match notation {
                    Some(s) => {
                        let ghost before = out@;
                        out.push(s);
                        assert(text::shown(out@) =~= text::shown(before).push(s@));
                    },
                    None => {},
                }
                pos = child;
            },
            Err(_e) => {
                proof {
                    if openings::reached(t, all) is Some {
                        openings::lemma_prefix(t, all, n + 1);
                    }
                }
                return Err(n);
            },
        }
        n = n + 1;
    }
    assert(all.take(n as int) =~= all);
    Ok(out)
}

/// The words of the move text.
fn number(moves: &Vec<String>) -> (r: Vec<String>)
    ensures
        text::shown(r@) == numbered(text::shown(moves@), moves@.len() as int),
{
    let ghost all = text::shown(moves@);
    let mut out: Vec<String> = Vec::new();
    let mut i: usize = 0;
    assert(text::shown(out@) =~= Seq::<Seq<char>>::empty());
    while i < moves.len()
        invariant
            i <= moves@.len(),
            all == text::shown(moves@),
            text::shown(out@) == numbered(all, i as int),
        decreases moves@.len() - i,
    {
        let ghost start = out@;
        if i % 2 == 0 {
            let mut word: String = String::new();
            text::append_decimal(&mut word, (i / 2) as u64 + 1);
            word.append(".");
            proof {
                assert(Seq::<char>::empty() + text::decimal(i as int / 2 + 1) =~= text::decimal(
                    i as int / 2 + 1,
                ));
            }
            out.push(word);
            assert(text::shown(out@) =~= text::shown(start).push(word@));
        }
        let ghost middle = out@;
        out.push(moves[i].clone());
        assert(text::shown(out@) =~= text::shown(middle).push(moves@[i as int]@));
        i = i + 1;
    }
    out
}

// --- lines ----------------------------------------------------------------------------------------

/// The number of bytes of a text.
pub open spec fn bytes(s: Seq<char>) -> int {
    vstd::utf8::encode_utf8(s).len() as int
}

/// The first `n` words laid out: the lines that are full, and the line that is
/// being filled. A word goes on a new line where the line would become too long.
pub open spec fn laid(words: Seq<Seq<char>>, n: int) -> (Seq<char>, Seq<char>)
    decreases n,
{
    if n <= 0 {
        (Seq::empty(), Seq::empty())
    } else {
        let (done, line) = laid(words, n - 1);
        let word = words[n - 1];
        if line.len() == 0 {
            (done, word)
        } else if bytes(line) + bytes(word) + 1 > WIDTH {
            (done + line + "\n"@, word)
        } else {
            (done, line + " "@ + word)
        }
    }
}

/// The words in lines.
pub open spec fn lines(words: Seq<Seq<char>>) -> Seq<char> {
    let (done, line) = laid(words, words.len() as int);
    done + line + "\n"@
}

/// Adds words in lines.
fn lay_out(out: &mut String, words: &Vec<String>)
    ensures
        final(out)@ == old(out)@ + lines(text::shown(words@)),
{
    let ghost all = text::shown(words@);
    let ghost start = out@;
    let mut line: String = String::new();
    let mut i: usize = 0;
    assert(start + Seq::<char>::empty() =~= start);
    while i < words.len()
        invariant
            i <= words@.len(),
            all == text::shown(words@),
            out@ == start + laid(all, i as int).0,
            line@ == laid(all, i as int).1,
        decreases words@.len() - i,
    {
        let word: &str = words[i].as_str();
        let ghost before = laid(all, i as int);
        let room: u128 = line.as_str().as_bytes().len() as u128 + word.as_bytes().len() as u128 + 1;
        if line.as_str().unicode_len() == 0 {
            line = word.to_owned();
        } else if room > WIDTH as u128 {
            out.append(line.as_str());
            out.append("\n");
            line = word.to_owned();
            assert(start + before.0 + before.1 + "\n"@ =~= start + (before.0 + before.1 + "\n"@));
        } else {
            line.append(" ");
            line.append(word);
        }
        i = i + 1;
    }
    out.append(line.as_str());
    out.append("\n");
    proof {
        let l = laid(all, all.len() as int);
        assert(start + l.0 + l.1 + "\n"@ =~= start + (l.0 + l.1 + "\n"@));
    }
}

// --- records --------------------------------------------------------------------------------------

/// A tag with its value.
pub open spec fn tag(name: Seq<char>, value: Seq<char>) -> Seq<char> {
    "["@ + name + " \""@ + value + "\"]\n"@
}

/// The tags of a game.
pub open spec fn tags(h: Heading, g: StdGame, round: int) -> Seq<char> {
    tag("Event"@, h.event@) + tag("Site"@, "?"@) + tag("Date"@, "????.??.??"@) + tag(
        "Round"@,
        text::decimal(round),
    ) + tag(
        "White"@,
        if g.white_was_a {
            h.white@
        } else {
            h.black@
        },
    ) + tag(
        "Black"@,
        if g.white_was_a {
            h.black@
        } else {
            h.white@
        },
    ) + tag("Result"@, g.outcome@) + tag("Opening"@, g.opening@) + tag(
        "Termination"@,
        g.termination@,
    ) + tag("TimeControl"@, h.time_control@) + "\n"@
}

/// The moves of a game are legal from the starting position.
pub open spec fn replays(g: StdGame) -> bool {
    openings::reached(openings::start_text(), text::shown(g.moves@)) is Some
}

/// The words of the move text of a game, the result last.
pub open spec fn words(g: StdGame) -> Seq<Seq<char>> {
    let moves = sans(openings::start_text(), text::shown(g.moves@));
    numbered(moves, moves.len() as int).push(g.outcome@)
}

/// The record of a game.
pub open spec fn game_record(h: Heading, g: StdGame, round: int) -> Seq<char> {
    tags(h, g, round) + lines(words(g))
}

fn add_tag(out: &mut String, name: &str, value: &str)
    ensures
        final(out)@ == old(out)@ + tag(name@, value@),
{
    let ghost start = out@;
    out.append("[");
    out.append(name);
    out.append(" \"");
    out.append(value);
    out.append("\"]\n");
    assert(out@ =~= start + tag(name@, value@));
}

fn add_tags(out: &mut String, h: &Heading, g: &StdGame, round: u64)
    ensures
        final(out)@ == old(out)@ + tags(*h, *g, round as int),
{
    let ghost start = out@;
    let (first, second): (&str, &str) = if g.white_was_a {
        (h.white, h.black)
    } else {
        (h.black, h.white)
    };
    let mut number: String = String::new();
    text::append_decimal(&mut number, round);
    assert(number@ =~= text::decimal(round as int));
    add_tag(out, "Event", h.event);
    add_tag(out, "Site", "?");
    add_tag(out, "Date", "????.??.??");
    add_tag(out, "Round", number.as_str());
    add_tag(out, "White", first);
    add_tag(out, "Black", second);
    add_tag(out, "Result", g.outcome.as_str());
    add_tag(out, "Opening", g.opening.as_str());
    add_tag(out, "Termination", g.termination.as_str());
    add_tag(out, "TimeControl", h.time_control);
    out.append("\n");
    assert(out@ =~= start + tags(*h, *g, round as int));
}

/// `uci` is the first move of a game that is not legal.
pub open spec fn breaks_at(g: StdGame, uci: Seq<char>) -> bool {
    exists|n: int|
        #![trigger g.moves@[n]]
        0 <= n < g.moves@.len() && uci == g.moves@[n]@ && openings::reached(
            openings::start_text(),
            text::shown(g.moves@).take(n),
        ) is Some && openings::reached(
            openings::start_text(),
            text::shown(g.moves@).take(n + 1),
        ) is None
}

/// The record of a game, if its moves are legal.
pub fn std_game_pgn(h: &Heading, g: &StdGame, round: u64) -> (r: Result<String, PgnError>)
    ensures
        r is Ok <==> replays(*g),
        r matches Ok(s) ==> s@ == game_record(*h, *g, round as int),
        r matches Err(PgnError::IllegalMove { uci, game_no }) ==> game_no == g.game_no && breaks_at(
            *g,
            uci@,
        ),
{
    let mut out: String = String::new();
    add_tags(&mut out, h, g, round);
    assert(out@ =~= tags(*h, *g, round as int));
    let moves: Vec<String> = match notate(&g.moves) {
        Ok(v) => v,
        Err(n) => {
            let uci: String = g.moves[n].clone();
            assert(uci@ == g.moves@[n as int]@);
            return Err(PgnError::IllegalMove { uci, game_no: g.game_no });
        },
    };
    let mut parts: Vec<String> = number(&moves);
    let ghost before = parts@;
    parts.push(g.outcome.clone());
    proof {
        assert(text::shown(parts@) =~= text::shown(before).push(g.outcome@));
        assert(text::shown(moves@).len() == moves@.len());
        assert(text::shown(parts@) =~= words(*g));
    }
    lay_out(&mut out, &parts);
    Ok(out)
}

/// The records of the games before `n`, each with an empty line behind it.
pub open spec fn document(h: Heading, games: Seq<StdGame>, n: int) -> Seq<char>
    decreases n,
{
    if n <= 0 {
        Seq::empty()
    } else {
        document(h, games, n - 1) + game_record(h, games[n - 1], n) + "\n"@
    }
}

/// The games of a match as one document, if all their moves are legal.
pub fn match_pgn(h: &Heading, games: &Vec<StdGame>) -> (r: Result<String, PgnError>)
    ensures
        r is Ok <==> (forall|k: int| 0 <= k < games@.len() ==> replays(#[trigger] games@[k])),
        r matches Ok(s) ==> s@ == document(*h, games@, games@.len() as int),
        r matches Err(PgnError::IllegalMove { uci, game_no }) ==> exists|k: int|
            0 <= k < games@.len() && game_no == (#[trigger] games@[k]).game_no && !replays(games@[k])
                && breaks_at(games@[k], uci@) && forall|j: int|
                0 <= j < k ==> replays(#[trigger] games@[j]),
{
    let mut out: String = String::new();
    let mut i: usize = 0;
    while i < games.len()
        invariant
            i <= games@.len(),
            out@ == document(*h, games@, i as int),
            forall|k: int| 0 <= k < i ==> replays(#[trigger] games@[k]),
        decreases games@.len() - i,
    {
        match std_game_pgn(h, &games[i], i as u64 + 1) {
            Ok(s) => {
                out.append(s.as_str());
                out.append("\n");
            },
            Err(e) => {
                return Err(e);
            },
        }
        i = i + 1;
    }
    Ok(out)
}

// --- laws -----------------------------------------------------------------------------------------

proof fn lemma_bytes(a: Seq<char>, b: Seq<char>)
    ensures
        bytes(a + b) == bytes(a) + bytes(b),
    decreases a.len(),
{
    reveal_with_fuel(vstd::utf8::encode_utf8, 2);
    if a.len() == 0 {
        assert(a + b =~= b);
    } else {
        lemma_bytes(a.drop_first(), b);
        assert((a + b).drop_first() =~= a.drop_first() + b);
    }
}

/// No line of the move text is longer than the width, but for a word that is.
pub proof fn law_lines_fit(words: Seq<Seq<char>>, n: int)
    requires
        0 <= n <= words.len(),
        forall|k: int| 0 <= k < words.len() ==> bytes(#[trigger] words[k]) <= WIDTH,
    ensures
        bytes(laid(words, n).1) <= WIDTH,
    decreases n,
{
    if n > 0 {
        law_lines_fit(words, n - 1);
        let line = laid(words, n - 1).1;
        let word = words[n - 1];
        lemma_bytes(line + " "@, word);
        lemma_bytes(line, " "@);
        assert(bytes(" "@) == 1) by {
            reveal_strlit(" ");
            reveal_with_fuel(vstd::utf8::encode_utf8, 2);
        }
    } else {
        assert(bytes(Seq::empty()) == 0) by {
            reveal_with_fuel(vstd::utf8::encode_utf8, 2);
        }
    }
}

/// A game names as White the engine that had White: the first where the game says so, the
/// second otherwise. The other one is named as Black, and the result stands behind them.
pub proof fn law_players_have_their_colours(h: Heading, g: StdGame, round: int)
    ensures
        g.white_was_a ==> exists|front: Seq<char>, rest: Seq<char>|
            tags(h, g, round) == #[trigger] (front + tag("White"@, h.white@) + tag(
                "Black"@,
                h.black@,
            ) + tag("Result"@, g.outcome@) + rest),
        !g.white_was_a ==> exists|front: Seq<char>, rest: Seq<char>|
            tags(h, g, round) == #[trigger] (front + tag("White"@, h.black@) + tag(
                "Black"@,
                h.white@,
            ) + tag("Result"@, g.outcome@) + rest),
{
    let front = tag("Event"@, h.event@) + tag("Site"@, "?"@) + tag("Date"@, "????.??.??"@) + tag(
        "Round"@,
        text::decimal(round),
    );
    let rest = tag("Opening"@, g.opening@) + tag("Termination"@, g.termination@) + tag(
        "TimeControl"@,
        h.time_control@,
    ) + "\n"@;
    if g.white_was_a {
        assert(tags(h, g, round) =~= front + tag("White"@, h.white@) + tag("Black"@, h.black@)
            + tag("Result"@, g.outcome@) + rest);
    } else {
        assert(tags(h, g, round) =~= front + tag("White"@, h.black@) + tag("Black"@, h.white@)
            + tag("Result"@, g.outcome@) + rest);
    }
}

/// Every move is written once and in its turn, and each move of White has its number before
/// it: the first move 1, the third 2 and so on.
pub proof fn law_moves_are_numbered(moves: Seq<Seq<char>>, n: int, k: int)
    requires
        0 <= k < n <= moves.len(),
    ensures
        numbered(moves, n).len() == n + (n + 1) / 2,
        k % 2 == 0 ==> numbered(moves, n)[k + k / 2] == text::decimal(k / 2 + 1) + "."@ && numbered(
            moves,
            n,
        )[k + k / 2 + 1] == moves[k],
        k % 2 == 1 ==> numbered(moves, n)[k + (k + 1) / 2] == moves[k],
    decreases n,
{
    lemma_numbered_len(moves, n - 1);
    lemma_numbered_len(moves, n);
    if k < n - 1 {
        law_moves_are_numbered(moves, n - 1, k);
        assert(k % 2 == 0 ==> k + k / 2 + 1 < (n - 1) + n / 2);
        assert(k % 2 == 1 ==> k + (k + 1) / 2 < (n - 1) + n / 2);
    }
}

proof fn lemma_numbered_len(moves: Seq<Seq<char>>, n: int)
    requires
        0 <= n,
    ensures
        numbered(moves, n).len() == n + (n + 1) / 2,
    decreases n,
{
    if n > 0 {
        lemma_numbered_len(moves, n - 1);
    }
}

} // verus!
