//! A position ready for search, with the hash that identifies it.
use vstd::prelude::*;
use crate::bits;
use crate::board::placement::Placement;
use crate::board::rules::{Facts, Step};
use crate::board::rules;
use crate::move_ordering;
use crate::move_ordering::{Around, OrderingTables};
use crate::nnue::board;
use crate::nnue::types::Color;
use crate::sums;
use crate::types::{MoveList, RawMove};

verus! {

/// The side of the board that castling goes to.
#[derive(Copy, Clone, Debug, PartialEq, Eq, Structural)]
pub enum CastlingSide {
    KingSide,
    QueenSide,
}

/// Why a text does not lead to a position.
#[derive(Debug)]
pub enum PositionError {
    InvalidFen(String),
    IllegalFen(String),
    InvalidMove(String),
    IllegalMove(String),
}

impl PositionError {
    /// The error in words.
    pub fn message(&self) -> (r: String)
        ensures
            r@ == (match self {
                PositionError::InvalidFen(t) => "invalid FEN: "@ + t@,
                PositionError::IllegalFen(t) => "illegal FEN position: "@ + t@,
                PositionError::InvalidMove(t) => "invalid UCI move: "@ + t@,
                PositionError::IllegalMove(t) => "illegal UCI move: "@ + t@,
            }),
    {
        match self {
            PositionError::InvalidFen(t) => {
                let mut s: String = "invalid FEN: ".to_owned();
                s.append(t.as_str());
                s
            },
            PositionError::IllegalFen(t) => {
                let mut s: String = "illegal FEN position: ".to_owned();
                s.append(t.as_str());
                s
            },
            PositionError::InvalidMove(t) => {
                let mut s: String = "invalid UCI move: ".to_owned();
                s.append(t.as_str());
                s
            },
            PositionError::IllegalMove(t) => {
                let mut s: String = "illegal UCI move: ".to_owned();
                s.append(t.as_str());
                s
            },
        }
    }
}

/// The move of a step.
pub open spec fn raw_of() -> spec_fn(Step) -> RawMove {
    |s: Step| s.raw_spec()
}

/// The legal moves of the position with a FEN.
pub open spec fn moves_of(text: Seq<char>) -> Seq<RawMove> {
    rules::legal_steps(text).map_values(raw_of())
}

/// The number of lines of `depth` plies from the position with a FEN.
pub open spec fn nodes(text: Seq<char>, depth: nat) -> nat
    decreases depth, 0nat,
{
    if depth == 0 {
        1
    } else {
        nodes_after(text, (depth - 1) as nat, rules::legal_steps(text).len())
    }
}

/// The number of lines that begin with one of the first `n` legal moves and go
/// on for `depth` plies.
pub open spec fn nodes_after(text: Seq<char>, depth: nat, n: nat) -> nat
    decreases depth, n,
{
    if n == 0 {
        0
    } else {
        nodes_after(text, depth, (n - 1) as nat) + nodes(
            rules::text_after(text, rules::legal_steps(text)[n - 1]),
            depth,
        )
    }
}

/// One ply gives one line for each legal move.
pub proof fn law_one_ply(text: Seq<char>)
    ensures
        nodes(text, 0) == 1,
        nodes(text, 1) == rules::legal_steps(text).len(),
{
    lemma_leaves(text, rules::legal_steps(text).len());
}

/// One ply more gives, for each legal move, the lines of the position after it.
pub proof fn law_ply_by_ply(text: Seq<char>, depth: nat)
    ensures
        nodes(text, depth + 1) == sums::ranged(
            rules::legal_steps(text).len() as int,
            |i: int| nodes(rules::text_after(text, rules::legal_steps(text)[i]), depth) as int,
        ),
{
    lemma_branches(text, depth, rules::legal_steps(text).len());
}

proof fn lemma_branches(text: Seq<char>, depth: nat, n: nat)
    ensures
        nodes_after(text, depth, n) == sums::ranged(
            n as int,
            |i: int| nodes(rules::text_after(text, rules::legal_steps(text)[i]), depth) as int,
        ),
    decreases n,
{
    let g = |i: int| nodes(rules::text_after(text, rules::legal_steps(text)[i]), depth) as int;
    if n > 0 {
        lemma_branches(text, depth, (n - 1) as nat);
        assert(sums::ranged(n as int, g) == sums::ranged(n - 1, g) + g(n - 1));
    } else {
        assert(sums::ranged(0, g) == 0);
    }
}

/// Promotions and captures are noisy, en passant too; castling, on whatever square it ends, and
/// moves to empty squares are not.
pub proof fn law_noisy_moves(b: Placement, m: RawMove)
    ensures
        m.promotion_spec() is Some ==> is_noisy(b)(m),
        m.kind_spec() == 2 ==> is_noisy(b)(m),
        m.kind_spec() == 1 && m.promotion_spec() is None ==> !is_noisy(b)(m),
        m.kind_spec() == 0 ==> (is_noisy(b)(m) <==> m.promotion_spec() is Some || b.role_on(
            m.to_sq(),
        ) is Some),
{
}

proof fn lemma_leaves(text: Seq<char>, n: nat)
    ensures
        nodes_after(text, 0, n) == n,
    decreases n,
{
    if n > 0 {
        lemma_leaves(text, (n - 1) as nat);
        assert(nodes(rules::text_after(text, rules::legal_steps(text)[n - 1]), 0) == 1);
    }
}

/// Fewer first moves give no more lines.
proof fn lemma_fewer(text: Seq<char>, depth: nat, n: nat, k: nat)
    requires
        k <= n,
    ensures
        nodes_after(text, depth, k) <= nodes_after(text, depth, n),
    decreases n,
{
    if k < n {
        lemma_fewer(text, depth, (n - 1) as nat, k);
    }
}

/// A move that is captured, promotes or goes past a pawn.
pub open spec fn is_noisy(b: Placement) -> spec_fn(RawMove) -> bool {
    |m: RawMove|
        m.promotion_spec() is Some || m.kind_spec() == 2 || (m.kind_spec() != 1 && b.role_on(
            m.to_sq(),
        ) is Some)
}

/// A position ready for search.
#[derive(Debug)]
pub struct Position {
    text: String,
    facts: Facts,
}

impl Position {
    /// The facts are those of the text.
    #[verifier::type_invariant]
    closed spec fn inv(self) -> bool {
        &&& rules::facts_of(self.text@) == Some(self.facts)
        &&& self.facts.board.wf()
    }

    /// The FEN that the position was reached by.
    pub closed spec fn text_spec(&self) -> Seq<char> {
        self.text@
    }

    /// What the position holds.
    pub closed spec fn facts_spec(&self) -> Facts {
        self.facts
    }

    /// The pieces.
    pub open spec fn board_spec(&self) -> Placement {
        self.facts_spec().board
    }

    /// The legal moves.
    pub open spec fn legal(&self) -> Seq<RawMove> {
        moves_of(self.text_spec())
    }

    /// The text stands for the facts, and the pieces can stand on a board.
    pub open spec fn holds_facts(&self) -> bool {
        &&& rules::facts_of(self.text_spec()) == Some(self.facts_spec())
        &&& self.board_spec().wf()
    }

    /// The position with a FEN that is known to hold facts.
    fn of_text(text: String) -> (r: Position)
        requires
            rules::facts_of(text@) is Some,
        ensures
            r.text_spec() == text@,
            r.holds_facts(),
    {
        let facts: Facts = rules::facts(text.as_str()).unwrap();
        Position { text, facts }
    }

    /// The starting position.
    pub fn startpos() -> (r: Position)
        ensures
            r.text_spec() == "rnbqkbnr/pppppppp/8/8/8/8/PPPPPPPP/RNBQKBNR w KQkq - 0 1"@,
            r.facts_spec() == rules::start_facts(),
            r.holds_facts(),
    {
        Position::of_text(rules::start())
    }

    /// The position with a FEN.
    pub fn from_fen(fen: &str) -> (r: Result<Position, PositionError>)
        ensures
            !rules::is_fen(fen@) ==> (r matches Err(PositionError::InvalidFen(t)) && t@ == fen@),
            rules::is_fen(fen@) && !rules::is_legal_fen(fen@) ==> (r matches Err(
                PositionError::IllegalFen(t),
            ) && t@ == fen@),
            rules::is_fen(fen@) && rules::is_legal_fen(fen@) ==> (r matches Ok(p) && p.text_spec()
                == fen@ && p.holds_facts()),
    {
        if !rules::fen_reads(fen) {
            return Err(PositionError::InvalidFen(fen.to_owned()));
        }
        if !rules::fen_settles(fen) {
            return Err(PositionError::IllegalFen(fen.to_owned()));
        }
        Ok(Position::of_text(fen.to_owned()))
    }

    /// The position as a FEN.
    pub fn fen(&self) -> (r: String)
        ensures
            r@ == rules::canonical_fen(self.text_spec()),
            rules::same_but_ep(self.facts_spec(), rules::facts_of(r@)),
    {
        proof {
            use_type_invariant(self);
        }
        rules::written(self.text.as_str())
    }

    /// What the position holds is what its text says.
    pub fn facts(&self) -> (r: &Facts)
        ensures
            *r == self.facts_spec(),
            self.holds_facts(),
    {
        proof {
            use_type_invariant(self);
        }
        &self.facts
    }

    /// The hash of the position; the move counters do not count.
    pub fn hash(&self) -> (r: u64)
        ensures
            r == rules::hash_of(self.text_spec()),
    {
        proof {
            use_type_invariant(self);
        }
        rules::zobrist(self.text.as_str())
    }

    /// The key of the position in Polyglot opening books.
    pub fn polyglot_key(&self) -> (r: u64)
        ensures
            r == rules::book_key_of(self.text_spec()),
    {
        proof {
            use_type_invariant(self);
        }
        rules::book_key(self.text.as_str())
    }

    /// The step that a move stands for is legal.
    pub open spec fn playable(&self, m: RawMove) -> bool {
        &&& rules::legal_steps(self.text_spec()).contains(Step::of_spec(m))
        &&& Step::of_spec(m).raw_spec() == m
    }

    /// The position after a legal move.
    pub fn make_child(&self, m: RawMove) -> (r: Position)
        requires
            self.playable(m),
        ensures
            r.text_spec() == rules::text_after(self.text_spec(), Step::of_spec(m)),
            r.holds_facts(),
            rules::follows(self.facts_spec(), Step::of_spec(m), Some(r.facts_spec())),
            r.board_spec().sq() == board::played(
                self.board_spec().sq(),
                m,
                self.facts_spec().turn,
            ),
    {
        proof {
            use_type_invariant(self);
        }
        Position::of_text(rules::play(self.text.as_str(), Step::of(m)))
    }

    /// The position after a move that UCI text stands for, with the move.
    pub fn play_uci(&self, uci: &str) -> (r: Result<(Position, RawMove), PositionError>)
        ensures
            !rules::is_uci(uci@) ==> (r matches Err(PositionError::InvalidMove(t)) && t@ == uci@),
            rules::is_uci(uci@) && rules::uci_step_of(self.text_spec(), uci@) is None ==> (
            r matches Err(PositionError::IllegalMove(t)) && t@ == uci@),
            rules::is_uci(uci@) && rules::uci_step_of(self.text_spec(), uci@) is Some ==> (
            r matches Ok((p, m)) && {
                let s = rules::uci_step_of(self.text_spec(), uci@)->0;
                &&& m == s.raw_spec()
                &&& self.legal().contains(m)
                &&& p.text_spec() == rules::text_after(self.text_spec(), s)
                &&& p.holds_facts()
                &&& rules::follows(self.facts_spec(), s, Some(p.facts_spec()))
            }),
            forall|m: RawMove| #[trigger]
                self.playable(m) && uci@ == m.uci_spec() ==> (r matches Ok(p) && p.1 == m),
    {
        proof {
            use_type_invariant(self);
            self.lemma_written(uci@);
        }
        match rules::uci_step(self.text.as_str(), uci) {
            Some(s) => {
                let m: RawMove = s.raw();
                proof {
                    self.lemma_step(s);
                }
                Ok((Position::of_text(rules::play(self.text.as_str(), s)), m))
            },
            None => if rules::uci_reads(uci) {
                Err(PositionError::IllegalMove(uci.to_owned()))
            } else {
                Err(PositionError::InvalidMove(uci.to_owned()))
            },
        }
    }

    proof fn lemma_written(&self, uci: Seq<char>)
        ensures
            forall|m: RawMove| #[trigger]
                self.playable(m) && uci == m.uci_spec() ==> rules::writes(
                    self.text_spec(),
                    Step::of_spec(m),
                    uci,
                ),
    {
    }

    proof fn lemma_step(&self, s: Step)
        requires
            rules::legal_steps(self.text_spec()).contains(s),
        ensures
            self.legal().contains(s.raw_spec()),
    {
        let steps = rules::legal_steps(self.text_spec());
        let i = choose|i: int| 0 <= i < steps.len() && steps[i] == s;
        assert(self.legal()[i] == s.raw_spec());
    }

    /// The position with the turn passed, where the side to move is not in
    /// check.
    pub fn null_move(&self) -> (r: Option<Position>)
        ensures
            r is Some <==> !rules::in_check(self.facts_spec()) && rules::text_swapped(
                self.text_spec(),
            ) is Some,
            r matches Some(p) ==> rules::text_swapped(self.text_spec()) == Some(p.text_spec())
                && p.facts_spec() == rules::passed(self.facts_spec()) && p.holds_facts(),
    {
        proof {
            use_type_invariant(self);
        }
        if rules::check(self.text.as_str()) {
            return None;
        }
        match rules::swap(self.text.as_str()) {
            Some(text) => Some(Position::of_text(text)),
            None => None,
        }
    }

    /// The legal moves.
    pub fn legal_moves(&self) -> (r: MoveList)
        ensures
            r@ == self.legal(),
            r@.len() <= 270,
            forall|i: int|
                0 <= i < r@.len() ==> rules::step_fits(
                    self.facts_spec(),
                    Step::of_spec(#[trigger] r@[i]),
                ) && self.playable(r@[i]) && Step::of_spec(r@[i]) == rules::legal_steps(
                    self.text_spec(),
                )[i],
    {
        proof {
            use_type_invariant(self);
        }
        let steps: Vec<Step> = rules::legal(self.text.as_str());
        let mut out: MoveList = MoveList::new();
        let mut i: usize = 0;
        while i < steps.len()
            invariant
                i <= steps@.len(),
                steps@ == rules::legal_steps(self.text_spec()),
                out@.len() == i,
                forall|k: int|
                    0 <= k < steps@.len() ==> rules::step_fits(
                        self.facts_spec(),
                        #[trigger] steps@[k],
                    ),
                forall|k: int| 0 <= k < i ==> #[trigger] out@[k] == steps@[k].raw_spec(),
            decreases steps@.len() - i,
        {
            assert(rules::step_fits(self.facts_spec(), steps@[i as int]));
            out.push(steps[i].raw());
            i = i + 1;
        }
        proof {
            assert(out@ =~= self.legal());
            assert forall|k: int| 0 <= k < out@.len() implies rules::step_fits(
                self.facts_spec(),
                Step::of_spec(#[trigger] out@[k]),
            ) && self.playable(out@[k]) && Step::of_spec(out@[k]) == rules::legal_steps(
                self.text_spec(),
            )[k] by {
                assert(rules::step_fits(self.facts_spec(), steps@[k]));
                steps@[k].lemma_raw();
                assert(steps@.contains(steps@[k]));
            }
        }
        out
    }

    /// The legal moves in the order in which they are searched.
    pub fn legal_moves_ordered(&self, tables: &OrderingTables) -> (r: MoveList)
        requires
            tables.wf(),
        ensures
            r@.to_multiset() == self.legal().to_multiset(),
            move_ordering::ordered(
                r@,
                self.board_spec(),
                self.facts_spec().turn,
                *tables,
                (Around { tt_move: RawMove::made(0, 0, 0), ply: 0, prev: None, ant: None }),
            ),
    {
        let mut moves: MoveList = self.legal_moves();
        move_ordering::order_moves(&mut moves, self, tables, RawMove::null());
        moves
    }

    /// The legal moves that capture or promote.
    pub fn capture_moves(&self) -> (r: MoveList)
        ensures
            r@ == self.legal().filter(is_noisy(self.board_spec())),
    {
        let all: MoveList = self.legal_moves();
        let mut out: MoveList = MoveList::new();
        let ghost p = is_noisy(self.board_spec());
        let mut i: usize = 0;
        proof {
            assert(all@.take(0).filter(p) =~= Seq::empty());
        }
        while i < all.len()
            invariant
                i <= all@.len(),
                p == is_noisy(self.board_spec()),
                out@ == all@.take(i as int).filter(p),
            decreases all@.len() - i,
        {
            let m: RawMove = all.get(i);
            proof {
                let next = all@.take(i + 1);
                assert(next.drop_last() =~= all@.take(i as int));
                assert(next.last() == m);
                reveal(Seq::filter);
            }
            if m.is_promotion() || m.is_en_passant() || (!m.is_castle() && self.board().role_at(
                m.to(),
            ).is_some()) {
                out.push(m);
            }
            i = i + 1;
        }
        assert(all@.take(all@.len() as int) =~= all@);
        out
    }

    /// The number of lines of `depth` plies; none of no plies counts as one.
    pub fn perft(&self, depth: u32) -> (r: u64)
        requires
            nodes(self.text_spec(), depth as nat) <= u64::MAX,
        ensures
            r == nodes(self.text_spec(), depth as nat),
        decreases depth,
    {
        if depth == 0 {
            return 1;
        }
        let moves: MoveList = self.legal_moves();
        if depth == 1 {
            proof {
                law_one_ply(self.text_spec());
            }
            return moves.len() as u64;
        }
        let ghost text = self.text_spec();
        let ghost d = (depth - 1) as nat;
        let ghost all = rules::legal_steps(text).len();
        let mut total: u64 = 0;
        let mut i: usize = 0;
        while i < moves.len()
            invariant
                i <= moves@.len(),
                depth >= 2,
                d == depth - 1,
                moves@ == self.legal(),
                text == self.text_spec(),
                all == rules::legal_steps(text).len(),
                all == moves@.len(),
                forall|k: int|
                    0 <= k < moves@.len() ==> rules::step_fits(
                        self.facts_spec(),
                        Step::of_spec(#[trigger] moves@[k]),
                    ),
                forall|k: int|
                    0 <= k < moves@.len() ==> self.playable(#[trigger] moves@[k]) && Step::of_spec(
                        moves@[k],
                    ) == rules::legal_steps(text)[k],
                total == nodes_after(text, d, i as nat),
                nodes_after(text, d, all) <= u64::MAX,
            decreases moves@.len() - i,
        {
            let m: RawMove = moves.get(i);
            assert(self.playable(moves@[i as int]));
            assert(Step::of_spec(moves@[i as int]) == rules::legal_steps(text)[i as int]);
            let child: Position = self.make_child(m);
            proof {
                lemma_fewer(text, d, all, (i + 1) as nat);
            }
            total = total + child.perft(depth - 1);
            i = i + 1;
        }
        total
    }

    /// The number of lines of `depth` plies, or nothing where it does not fit
    /// in 64 bits.
    pub fn perft_checked(&self, depth: u32) -> (r: Option<u64>)
        ensures
            r is Some <==> nodes(self.text_spec(), depth as nat) <= u64::MAX,
            r matches Some(n) ==> n == nodes(self.text_spec(), depth as nat),
        decreases depth,
    {
        if depth == 0 {
            return Some(1);
        }
        let moves: MoveList = self.legal_moves();
        let ghost text = self.text_spec();
        let ghost d = (depth - 1) as nat;
        let ghost all = rules::legal_steps(text).len();
        let mut total: u64 = 0;
        let mut i: usize = 0;
        while i < moves.len()
            invariant
                i <= moves@.len(),
                depth >= 1,
                d == depth - 1,
                moves@ == self.legal(),
                text == self.text_spec(),
                all == rules::legal_steps(text).len(),
                all == moves@.len(),
                forall|k: int|
                    0 <= k < moves@.len() ==> self.playable(#[trigger] moves@[k]) && Step::of_spec(
                        moves@[k],
                    ) == rules::legal_steps(text)[k],
                total == nodes_after(text, d, i as nat),
            decreases moves@.len() - i,
        {
            let m: RawMove = moves.get(i);
            assert(self.playable(moves@[i as int]));
            assert(Step::of_spec(moves@[i as int]) == rules::legal_steps(text)[i as int]);
            let child: Position = self.make_child(m);
            proof {
                lemma_fewer(text, d, all, (i + 1) as nat);
            }
            match child.perft_checked(depth - 1) {
                Some(n) => match total.checked_add(n) {
                    Some(t) => {
                        total = t;
                    },
                    None => {
                        return None;
                    },
                },
                None => {
                    return None;
                },
            }
            i = i + 1;
        }
        Some(total)
    }

    /// The number of lines that go on for `depth` plies, first move by first
    /// move.
    pub fn perft_split(&self, depth: u32) -> (r: Vec<(RawMove, u64)>)
        requires
            nodes(self.text_spec(), depth as nat) <= u64::MAX,
        ensures
            r@.len() == self.legal().len(),
            forall|i: int|
                0 <= i < r@.len() ==> (#[trigger] r@[i]).0 == self.legal()[i] && r@[i].1 == nodes(
                    rules::text_after(
                        self.text_spec(),
                        rules::legal_steps(self.text_spec())[i],
                    ),
                    if depth == 0 {
                        0
                    } else {
                        (depth - 1) as nat
                    },
                ),
    {
        let moves: MoveList = self.legal_moves();
        let below: u32 = if depth == 0 {
            0
        } else {
            depth - 1
        };
        let ghost text = self.text_spec();
        let ghost all = rules::legal_steps(text).len();
        let mut out: Vec<(RawMove, u64)> = Vec::new();
        let mut i: usize = 0;
        while i < moves.len()
            invariant
                i <= moves@.len(),
                out@.len() == i,
                moves@ == self.legal(),
                text == self.text_spec(),
                all == moves@.len(),
                depth >= 1 ==> nodes_after(text, below as nat, all) <= u64::MAX,
                depth == 0 ==> below == 0,
                forall|k: int|
                    0 <= k < moves@.len() ==> self.playable(#[trigger] moves@[k]) && Step::of_spec(
                        moves@[k],
                    ) == rules::legal_steps(text)[k],
                forall|k: int|
                    0 <= k < i ==> (#[trigger] out@[k]).0 == self.legal()[k] && out@[k].1 == nodes(
                        rules::text_after(text, rules::legal_steps(text)[k]),
                        below as nat,
                    ),
            decreases moves@.len() - i,
        {
            let m: RawMove = moves.get(i);
            assert(self.playable(moves@[i as int]));
            assert(Step::of_spec(moves@[i as int]) == rules::legal_steps(text)[i as int]);
            let child: Position = self.make_child(m);
            proof {
                if depth >= 1 {
                    lemma_fewer(text, below as nat, all, (i + 1) as nat);
                }
            }
            out.push((m, child.perft(below)));
            i = i + 1;
        }
        out
    }

    /// The lines of `depth` plies first move by first move, with their sum;
    /// nothing where the sum does not fit in 64 bits.
    pub fn divide(&self, depth: u32) -> (r: Option<(Vec<(RawMove, u64)>, u64)>)
        ensures
            r is Some <==> nodes(self.text_spec(), depth as nat) <= u64::MAX,
            r matches Some(p) ==> p.1 == nodes(self.text_spec(), depth as nat) && p.0@.len()
                == self.legal().len() && forall|i: int|
                0 <= i < p.0@.len() ==> (#[trigger] p.0@[i]).0 == self.legal()[i] && p.0@[i].1
                    == nodes(
                    rules::text_after(
                        self.text_spec(),
                        rules::legal_steps(self.text_spec())[i],
                    ),
                    if depth == 0 {
                        0
                    } else {
                        (depth - 1) as nat
                    },
                ),
    {
        match self.perft_checked(depth) {
            Some(total) => Some((self.perft_split(depth), total)),
            None => None,
        }
    }

    /// The pieces.
    pub fn board(&self) -> (r: &Placement)
        ensures
            *r == self.board_spec(),
            r.wf(),
    {
        proof {
            use_type_invariant(self);
        }
        &self.facts.board
    }

    /// The side to move.
    pub fn turn(&self) -> (r: Color)
        ensures
            r == self.facts_spec().turn,
    {
        self.facts.turn
    }

    pub fn is_check(&self) -> (r: bool)
        ensures
            r == rules::in_check(self.facts_spec()),
    {
        proof {
            use_type_invariant(self);
        }
        rules::check(self.text.as_str())
    }

    /// How many plies ago a pawn moved or a piece was captured.
    pub fn halfmoves(&self) -> (r: u32)
        ensures
            r == self.facts_spec().halfmoves,
    {
        self.facts.halfmoves
    }

    /// Neither side has enough material to win.
    pub fn is_insufficient_material(&self) -> (r: bool)
        ensures
            r == rules::bare(self.board_spec()),
    {
        proof {
            use_type_invariant(self);
        }
        rules::insufficient(self.text.as_str())
    }

    /// Fifty moves without progress, or too little material to win.
    pub fn is_drawish(&self) -> (r: bool)
        ensures
            r == (self.facts_spec().halfmoves >= 100 || rules::bare(self.board_spec())),
    {
        proof {
            use_type_invariant(self);
        }
        self.facts.halfmoves >= 100 || rules::insufficient(self.text.as_str())
    }

    /// Whether a side may still castle to a side of the board.
    pub fn has_castling_right(&self, color: Color, side: CastlingSide) -> (r: bool)
        ensures
            r == bits::mem(
                self.facts_spec().castling,
                56 * color.index() + (if side == CastlingSide::KingSide {
                    7int
                } else {
                    0
                }),
            ),
    {
        let home: usize = match color {
            Color::White => 0,
            Color::Black => 56,
        };
        match side {
            CastlingSide::KingSide => bits::contains(self.facts.castling, home + 7),
            CastlingSide::QueenSide => bits::contains(self.facts.castling, home),
        }
    }

    /// The legal move that a UCI text stands for.
    pub fn raw_move_from_uci(&self, uci: &str) -> (r: Option<RawMove>)
        ensures
            r is Some <==> rules::uci_step_of(self.text_spec(), uci@) is Some,
            r matches Some(m) ==> m == (rules::uci_step_of(self.text_spec(), uci@)->0).raw_spec()
                && self.legal().contains(m) && self.playable(m),
            forall|m: RawMove| #[trigger] self.playable(m) && uci@ == m.uci_spec() ==> r == Some(m),
    {
        proof {
            use_type_invariant(self);
            self.lemma_written(uci@);
        }
        match rules::uci_step(self.text.as_str(), uci) {
            Some(s) => {
                proof {
                    self.lemma_step(s);
                    s.lemma_raw();
                }
                Some(s.raw())
            },
            None => None,
        }
    }

    /// The legal move that a UCI text stands for, in standard algebraic notation.
    pub fn san_from_uci(&self, uci: &str) -> (r: Option<String>)
        ensures
            r is Some <==> rules::uci_step_of(self.text_spec(), uci@) is Some,
            r matches Some(t) ==> t@ == rules::san_text(
                self.text_spec(),
                rules::uci_step_of(self.text_spec(), uci@)->0,
            ),
    {
        proof {
            use_type_invariant(self);
        }
        match rules::uci_step(self.text.as_str(), uci) {
            Some(s) => Some(rules::san(self.text.as_str(), s)),
            None => None,
        }
    }

    /// Whether a move is legal.
    pub fn raw_move_legal(&self, m: RawMove) -> (r: bool)
        ensures
            r == self.legal().contains(m),
            r ==> self.playable(m),
    {
        let moves: MoveList = self.legal_moves();
        let r: bool = moves.contains(m);
        proof {
            if r {
                let i = choose|i: int| 0 <= i < moves@.len() && moves@[i] == m;
                assert(self.playable(moves@[i]));
            }
        }
        r
    }

    /// Whether the side to move is mated.
    pub fn is_mated(&self) -> (r: bool)
        ensures
            r == (rules::in_check(self.facts_spec()) && self.legal().len() == 0),
    {
        proof {
            use_type_invariant(self);
        }
        rules::mate(self.text.as_str())
    }
}

impl Clone for Position {
    fn clone(&self) -> (r: Self)
        ensures
            r.text_spec() == self.text_spec(),
            r.facts_spec() == self.facts_spec(),
    {
        proof {
            use_type_invariant(self);
        }
        Position { text: self.text.clone(), facts: self.facts }
    }
}

/// The move that is no move.
pub fn null_move() -> (r: RawMove)
    ensures
        r == RawMove::made(0, 0, 0),
{
    RawMove::new(0, 0, 0)
}

} // verus!
