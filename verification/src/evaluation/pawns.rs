//! The pawn structure: doubled, isolated, connected, defended and backward
//! pawns, and how many groups the pawns fall into.
use vstd::prelude::*;
use crate::arith;
use crate::bits;
use crate::board::Placement;
use crate::evaluation;
use crate::evaluation::params;
use crate::evaluation::params::EvalParams;
use crate::evaluation::Score;
use crate::nnue::attacks;
use crate::nnue::attacks::pop_lsb;
use crate::nnue::geometry;
use crate::nnue::types::Color;
use crate::sums;
use crate::types::Role;

verus! {

/// The squares of a file.
pub fn file_mask(file: u8) -> (r: u64)
    requires
        file < 8,
    ensures
        forall|t: int| #[trigger] bits::mem(r, t) == (0 <= t < 64 && t % 8 == file),
{
    attacks::file_bb(file as usize)
}

/// The squares of a rank.
pub fn rank_mask(rank: u8) -> (r: u64)
    requires
        rank < 8,
    ensures
        forall|t: int| #[trigger] bits::mem(r, t) == (0 <= t < 64 && t / 8 == rank),
{
    let k: u64 = 8 * rank as u64;
    proof {
        assert forall|t: int| #[trigger] bits::mem(0xffu64 << k, t) == (0 <= t < 64 && t / 8 == rank) by {
            bits::mem_shl(0xff, k, t);
            attacks::lemma_edge_masks(t - k);
        }
    }
    0xffu64 << k
}

/// The squares of the files beside a file.
pub fn adjacent_files(f: u8) -> (r: u64)
    requires
        f < 8,
    ensures
        forall|t: int| #[trigger]
            bits::mem(r, t) == (0 <= t < 64 && evaluation::beside(f as int, t)),
{
    broadcast use bits::group_mem;

    let mut m: u64 = 0;
    if f > 0 {
        m = m | file_mask(f - 1);
    }
    if f < 7 {
        m = m | file_mask(f + 1);
    }
    m
}

// --- files and groups ---------------------------------------------------------------------

/// File `f` is among the files of a mask.
pub open spec fn on(files: u8, f: int) -> bool {
    bits::mem(files as u64, f)
}

/// A file is the last one of a run of files of the mask.
pub open spec fn ends_run(files: u8) -> spec_fn(int) -> bool {
    |f: int| on(files, f) && !on(files, f + 1)
}

/// How many runs of neighbouring files the mask has.
pub open spec fn runs(files: u8) -> int {
    sums::how_many(ends_run(files))
}

/// How many runs of neighbouring files the mask has.
pub fn islands(files: u8) -> (r: u32)
    ensures
        r == runs(files),
        r <= 8,
{
    broadcast use bits::group_mem;

    let w: u64 = files as u64;
    let ends: u64 = w & !(w >> 1);
    proof {
        assert forall|s: int| 0 <= s < 64 implies #[trigger] bits::mem(ends, s) == ends_run(files)(s) by {
            bits::mem_shr(w, 1, s);
        }
        sums::lemma_how_many(ends, ends_run(files));
        assert forall|s: int| #[trigger] bits::mem(ends, s) implies s < 8 by {
            lemma_files(files, s);
        }
        bits::lemma_ones_numbered(ends, |s: int| s, 8);
    }
    bits::count(ends)
}

/// A mask of files has no file beyond the eighth.
proof fn lemma_files(files: u8, s: int)
    requires
        on(files, s),
    ensures
        s < 8,
{
    let i = s as u64;
    assert(i < 64 && ((files as u64) >> i) & 1u64 == 1u64 ==> i < 8) by (bit_vector);
}

/// Adding a file to a mask.
proof fn lemma_add_file(files: u8, f: u8)
    requires
        f < 8,
    ensures
        forall|g: int| #[trigger] on(files | (1u8 << f), g) == (on(files, g) || g == f),
{
    assert forall|g: int| #[trigger] on(files | (1u8 << f), g) == (on(files, g) || g == f) by {
        if 0 <= g < 64 {
            let i = g as u64;
            assert(f < 8 && i < 64 ==> ((((files | (1u8 << f)) as u64) >> i) & 1u64 == 1u64 <==> (((
            files as u64) >> i) & 1u64 == 1u64 || i == f))) by (bit_vector);
        }
    }
}

// --- what the pawns alone tell --------------------------------------------------------------

/// A pawn among `w` attacks `t`.
pub open spec fn struck(w: u64, c: Color, t: int) -> bool {
    exists|s: int| bits::mem(w, s) && #[trigger] geometry::pawn_step(c.index(), s, t)
}

/// A pawn among `w` stands on the file `f`.
pub open spec fn on_file(w: u64, f: int) -> bool {
    exists|s: int| #[trigger] bits::mem(w, s) && s % 8 == f
}

/// The pawns, what they attack and the files they stand on.
#[derive(Clone, Copy, Debug)]
pub struct PawnInfo {
    pub white: u64,
    pub black: u64,
    pub white_attacks: u64,
    pub black_attacks: u64,
    pub white_files: u8,
    pub black_files: u8,
}

impl PawnInfo {
    /// The pawns of a side.
    pub open spec fn pawns(self, c: Color) -> u64 {
        match c {
            Color::White => self.white,
            Color::Black => self.black,
        }
    }

    /// What the pawns of a side attack.
    pub open spec fn hits(self, c: Color) -> u64 {
        match c {
            Color::White => self.white_attacks,
            Color::Black => self.black_attacks,
        }
    }

    /// The files of the pawns of a side.
    pub open spec fn files(self, c: Color) -> u8 {
        match c {
            Color::White => self.white_files,
            Color::Black => self.black_files,
        }
    }

    /// What a side's pawns attack and where they stand is what it says.
    pub open spec fn sound(self, c: Color) -> bool {
        &&& forall|t: int| #[trigger]
            bits::mem(self.hits(c), t) == struck(self.pawns(c), c, t)
        &&& forall|f: int| #[trigger] on(self.files(c), f) == on_file(self.pawns(c), f)
    }

    /// These are the pawns of a board.
    pub open spec fn describes(self, b: Placement) -> bool {
        &&& self.white == evaluation::word(b, Color::White, Role::Pawn)
        &&& self.black == evaluation::word(b, Color::Black, Role::Pawn)
        &&& self.sound(Color::White)
        &&& self.sound(Color::Black)
    }

    /// The pawns of a board.
    pub fn scan(board: &Placement) -> (r: PawnInfo)
        ensures
            r.describes(*board),
    {
        let white: u64 = board.by_piece(Color::White, Role::Pawn);
        let black: u64 = board.by_piece(Color::Black, Role::Pawn);
        PawnInfo {
            white,
            black,
            white_attacks: attacks_of(white, Color::White),
            black_attacks: attacks_of(black, Color::Black),
            white_files: files_under(white),
            black_files: files_under(black),
        }
    }

    pub fn pawns_of(&self, color: Color) -> (r: u64)
        ensures
            r == self.pawns(color),
    {
        match color {
            Color::White => self.white,
            Color::Black => self.black,
        }
    }

    pub fn pawn_attacks_of(&self, color: Color) -> (r: u64)
        ensures
            r == self.hits(color),
    {
        match color {
            Color::White => self.white_attacks,
            Color::Black => self.black_attacks,
        }
    }

    pub fn files_of(&self, color: Color) -> (r: u8)
        ensures
            r == self.files(color),
    {
        match color {
            Color::White => self.white_files,
            Color::Black => self.black_files,
        }
    }
}

/// What the pawns of a side attack.
fn attacks_of(w: u64, c: Color) -> (r: u64)
    ensures
        forall|t: int| #[trigger] bits::mem(r, t) == struck(w, c, t),
{
    broadcast use bits::group_mem;

    let east: u64 = match c {
        Color::White => attacks::shift_north_east(w),
        Color::Black => attacks::shift_south_east(w),
    };
    let west: u64 = match c {
        Color::White => attacks::shift_north_west(w),
        Color::Black => attacks::shift_south_west(w),
    };
    let r: u64 = east | west;
    proof {
        assert forall|t: int| #[trigger] bits::mem(r, t) == struck(w, c, t) by {
            match c {
                Color::White => {
                    assert(bits::mem(r, t) == (bits::mem(east, t) || bits::mem(
                        west,
                        t,
                    )));
                    if bits::mem(east, t) {
                        assert(geometry::pawn_step(c.index(), t - 9, t));
                    }
                    if bits::mem(west, t) {
                        assert(geometry::pawn_step(c.index(), t - 7, t));
                    }
                },
                Color::Black => {
                    assert(bits::mem(r, t) == (bits::mem(east, t) || bits::mem(
                        west,
                        t,
                    )));
                    if bits::mem(east, t) {
                        assert(geometry::pawn_step(c.index(), t + 7, t));
                    }
                    if bits::mem(west, t) {
                        assert(geometry::pawn_step(c.index(), t + 9, t));
                    }
                },
            }
            if struck(w, c, t) {
                let s = choose|s: int|
                    bits::mem(w, s) && #[trigger] geometry::pawn_step(c.index(), s, t);
                match c {
                    Color::White => {
                        assert(s == t - 9 || s == t - 7);
                    },
                    Color::Black => {
                        assert(s == t + 7 || s == t + 9);
                    },
                }
            }
        }
    }
    r
}

/// The files of the squares of a set.
fn files_under(w: u64) -> (r: u8)
    ensures
        forall|f: int| #[trigger] on(r, f) == on_file(w, f),
{
    broadcast use bits::group_mem;

    let mut files: u8 = 0;
    let mut f: u8 = 0;
    proof {
        assert forall|g: int| !#[trigger] on(0, g) by {
            bits::mem_zero(g);
        }
    }
    while f < 8
        invariant
            f <= 8,
            forall|g: int| #[trigger] on(files, g) == (g < f && on_file(w, g)),
        decreases 8 - f,
    {
        let m: u64 = w & file_mask(f);
        proof {
            lemma_add_file(files, f);
            bits::lemma_nonzero(m);
            assert(m != 0 <==> on_file(w, f as int)) by {
                broadcast use bits::mem_and;

                if m != 0 {
                    let s = choose|s: int| bits::mem(m, s);
                    assert(bits::mem(w, s));
                }
                if on_file(w, f as int) {
                    let s = choose|s: int| #[trigger] bits::mem(w, s) && s % 8 == f;
                    assert(bits::mem(m, s));
                }
            }
        }
        if m != 0 {
            files = files | (1u8 << f);
        }
        f = f + 1;
    }
    proof {
        assert forall|g: int| #[trigger] on(files, g) == on_file(w, g) by {}
    }
    files
}

// --- the structure --------------------------------------------------------------------------

/// Another pawn of the side stands on the file of `s`.
pub open spec fn doubled(w: u64, s: int) -> bool {
    exists|t: int| #[trigger] bits::mem(w, t) && t != s && t % 8 == s % 8
}

/// No pawn of the side stands on a file beside that of `s`.
pub open spec fn isolated(w: u64, s: int) -> bool {
    forall|t: int| #[trigger] bits::mem(w, t) ==> !evaluation::beside(s, t)
}

/// A pawn of the side stands on a file beside that of `s`, on its rank or one
/// behind.
pub open spec fn connected(w: u64, c: Color, s: int) -> bool {
    exists|t: int| #[trigger]
        bits::mem(w, t) && evaluation::beside(s, t) && (evaluation::level(c, t)
            == evaluation::level(c, s) || evaluation::level(c, t) == evaluation::level(c, s) - 1)
}

/// No pawn defends `s`, and an enemy pawn attacks the square in front of it.
pub open spec fn backward(info: PawnInfo, c: Color, s: int) -> bool {
    !bits::mem(info.hits(c), s) && bits::mem(info.hits(c.opposite()), evaluation::front(c, s))
}

/// What the structure gives for the pawn on a square.
pub open spec fn worth(info: PawnInfo, c: Color, p: EvalParams, f: int) -> spec_fn(int) -> int {
    |s: int|
        evaluation::where_so(doubled(info.pawns(c), s), p.doubled@[f]) + evaluation::where_so(
            isolated(info.pawns(c), s),
            p.isolated@[f],
        ) + evaluation::where_so(connected(info.pawns(c), c, s), p.connected@[f]) + evaluation::where_so(
            bits::mem(info.hits(c), s),
            p.protected_pawn@[f],
        ) + evaluation::where_so(backward(info, c, s), p.backward@[f])
}

/// What each group of pawns beyond the first gives.
pub open spec fn groups(info: PawnInfo, c: Color, p: EvalParams, f: int) -> int {
    let n = runs(info.files(c));
    if n > 1 {
        (n - 1) * p.island@[f]
    } else {
        0
    }
}

/// What the structure of a side's pawns gives.
pub open spec fn half(info: PawnInfo, c: Color, p: EvalParams, f: int) -> int {
    sums::over(info.pawns(c), worth(info, c, p, f)) + groups(info, c, p, f)
}

/// The size of what the structure gives.
proof fn lemma_worth(w: u64, info: PawnInfo, c: Color, p: EvalParams, f: int)
    requires
        p.wf(),
        0 <= f < 2,
    ensures
        -(20480 * bits::ones(w)) <= sums::over(w, worth(info, c, p, f)) <= 20480 * bits::ones(w),
        bits::ones(w) <= 64,
        forall|s: int| -20480 <= #[trigger] worth(info, c, p, f)(s) <= 20480,
{
    assert(params::pair_at_most(p.doubled, 4096));
    assert(params::pair_at_most(p.isolated, 4096));
    assert(params::pair_at_most(p.connected, 4096));
    assert(params::pair_at_most(p.protected_pawn, 4096));
    assert(params::pair_at_most(p.backward, 4096));
    assert forall|s: int| -20480 <= #[trigger] worth(info, c, p, f)(s) <= 20480 by {}
    assert forall|s: int| #[trigger] bits::mem(w, s) implies -20480 <= worth(info, c, p, f)(s)
        <= 20480 by {}
    sums::lemma_over_bound(w, worth(info, c, p, f), 20480);
    bits::lemma_ones_set(w);
}

fn is_doubled(w: u64, s: usize) -> (r: bool)
    requires
        bits::mem(w, s as int),
        s < 64,
    ensures
        r == doubled(w, s as int),
{
    broadcast use bits::mem_and;

    let m: u64 = w & file_mask((s % 8) as u8);
    proof {
        bits::lemma_ones_another(m, s as int);
        if doubled(w, s as int) {
            let t = choose|t: int| #[trigger] bits::mem(w, t) && t != s && t % 8 == s % 8;
            assert(bits::mem(m, t));
        }
        if exists|t: int| #[trigger] bits::mem(m, t) && t != s {
            let t = choose|t: int| #[trigger] bits::mem(m, t) && t != s;
            assert(bits::mem(w, t));
        }
    }
    bits::count(m) > 1
}

fn is_connected(w: u64, c: Color, s: usize) -> (r: bool)
    requires
        s < 64,
    ensures
        r == connected(w, c, s as int),
{
    broadcast use bits::group_mem;

    let rank: u8 = (s / 8) as u8;
    let mut band: u64 = rank_mask(rank);
    match c {
        Color::White => {
            if rank > 0 {
                band = band | rank_mask(rank - 1);
            }
        },
        Color::Black => {
            if rank < 7 {
                band = band | rank_mask(rank + 1);
            }
        },
    }
    let near: u64 = band & adjacent_files((s % 8) as u8);
    let r: bool = bits::meets(w, near);
    proof {
        if r {
            let t = choose|t: int| #[trigger] bits::mem(w, t) && bits::mem(near, t);
            assert(evaluation::beside(s as int, t));
        }
        if connected(w, c, s as int) {
            let t = choose|t: int| #[trigger]
                bits::mem(w, t) && evaluation::beside(s as int, t) && (evaluation::level(c, t)
                    == evaluation::level(c, s as int) || evaluation::level(c, t)
                    == evaluation::level(c, s as int) - 1);
            assert(bits::mem(near, t));
        }
    }
    r
}

/// The square in front of `s` belongs to `w`.
pub fn front_in(w: u64, c: Color, s: usize) -> (r: bool)
    requires
        s < 64,
    ensures
        r == bits::mem(w, evaluation::front(c, s as int)),
{
    match c {
        Color::White => bits::contains(w, s + 8),
        Color::Black => s >= 8 && bits::contains(w, s - 8),
    }
}

/// What the structure gives for the pawn on a square.
fn worth_of(info: &PawnInfo, c: Color, s: usize, p: &EvalParams) -> (r: Score)
    requires
        p.wf(),
        s < 64,
        bits::mem(info.pawns(c), s as int),
    ensures
        r.mg == worth(*info, c, *p, 0)(s as int),
        r.eg == worth(*info, c, *p, 1)(s as int),
{
    let w: u64 = info.pawns_of(c);
    let mut mg: i32 = 0;
    let mut eg: i32 = 0;
    if is_doubled(w, s) {
        mg = mg + p.doubled[0];
        eg = eg + p.doubled[1];
    }
    let near: u64 = adjacent_files((s % 8) as u8);
    let mut alone: bool = true;
    if bits::meets(w, near) {
        alone = false;
    }
    proof {
        if alone {
            assert forall|t: int| #[trigger] bits::mem(w, t) implies !evaluation::beside(
                s as int,
                t,
            ) by {
                assert(!bits::mem(near, t));
            }
        } else {
            let t = choose|t: int| #[trigger] bits::mem(w, t) && bits::mem(near, t);
            assert(evaluation::beside(s as int, t));
        }
        assert(alone == isolated(w, s as int));
    }
    if alone {
        mg = mg + p.isolated[0];
        eg = eg + p.isolated[1];
    }
    if is_connected(w, c, s) {
        mg = mg + p.connected[0];
        eg = eg + p.connected[1];
    }
    if bits::contains(info.pawn_attacks_of(c), s) {
        mg = mg + p.protected_pawn[0];
        eg = eg + p.protected_pawn[1];
    } else if front_in(info.pawn_attacks_of(c.other()), c, s) {
        mg = mg + p.backward[0];
        eg = eg + p.backward[1];
    }
    Score::new(mg, eg)
}

/// What the structure of a side's pawns gives.
fn side(info: &PawnInfo, c: Color, p: &EvalParams) -> (r: Score)
    requires
        p.wf(),
    ensures
        r.mg == half(*info, c, *p, 0),
        r.eg == half(*info, c, *p, 1),
        -2000000 <= r.mg <= 2000000,
        -2000000 <= r.eg <= 2000000,
{
    let ghost fm = worth(*info, c, *p, 0);
    let ghost fe = worth(*info, c, *p, 1);
    let w: u64 = info.pawns_of(c);
    let mut bb: u64 = w;
    let mut mg: i32 = 0;
    let mut eg: i32 = 0;
    proof {
        lemma_worth(w, *info, c, *p, 0);
        lemma_worth(w, *info, c, *p, 1);
    }
    while bb != 0
        invariant
            p.wf(),
            w == info.pawns(c),
            fm == worth(*info, c, *p, 0),
            fe == worth(*info, c, *p, 1),
            forall|t: int| #[trigger] bits::mem(bb, t) ==> bits::mem(w, t),
            mg + sums::over(bb, fm) == sums::over(w, fm),
            eg + sums::over(bb, fe) == sums::over(w, fe),
            -1310720 <= sums::over(w, fm) <= 1310720,
            -1310720 <= sums::over(w, fe) <= 1310720,
        decreases bb,
    {
        proof {
            sums::lemma_over_step(bb, fm);
            sums::lemma_over_step(bb, fe);
            lemma_worth(bb, *info, c, *p, 0);
            lemma_worth(bb, *info, c, *p, 1);
            lemma_worth(bits::rest(bb), *info, c, *p, 0);
            lemma_worth(bits::rest(bb), *info, c, *p, 1);
        }
        let s: usize = pop_lsb(&mut bb);
        let x: Score = worth_of(info, c, s, p);
        mg = mg + x.mg;
        eg = eg + x.eg;
    }
    proof {
        sums::lemma_over_none(fm);
        sums::lemma_over_none(fe);
    }
    let n: u32 = islands(info.files_of(c));
    if n > 1 {
        proof {
            assert(params::pair_at_most(p.island, 4096));
            arith::lemma_product(n - 1, p.island@[0] as int, 8, 4096);
            arith::lemma_product(n - 1, p.island@[1] as int, 8, 4096);
        }
        mg = mg + (n as i32 - 1) * p.island[0];
        eg = eg + (n as i32 - 1) * p.island[1];
    }
    Score::new(mg, eg)
}

/// What White's pawn structure gives more than Black's.
pub fn evaluate_pawns(info: &PawnInfo, p: &EvalParams) -> (r: Score)
    requires
        p.wf(),
    ensures
        r.mg == half(*info, Color::White, *p, 0) - half(*info, Color::Black, *p, 0),
        r.eg == half(*info, Color::White, *p, 1) - half(*info, Color::Black, *p, 1),
{
    side(info, Color::White, p) - side(info, Color::Black, p)
}

/// The size of what a side has on a board.
pub proof fn lemma_size(b: Placement, info: PawnInfo, c: Color, p: EvalParams, f: int)
    requires
        b.wf(),
        p.wf(),
        info.describes(b),
        0 <= f < 2,
    ensures
        -(88 * 4096) <= half(info, c, p, f) <= 88 * 4096,
{
    evaluation::lemma_number(b, c, Role::Pawn);
    lemma_worth(info.pawns(c), info, c, p, f);
    let files = info.files(c);
    lemma_runs(files);
    assert(params::pair_at_most(p.island, 4096));
    if runs(files) > 1 {
        arith::lemma_product(runs(files) - 1, p.island@[f] as int, 8, 4096);
    }
}

/// There are at most eight runs of files.
proof fn lemma_runs(files: u8)
    ensures
        0 <= runs(files) <= 8,
{
    broadcast use bits::group_mem;

    let w = files as u64;
    let ends = w & !(w >> 1);
    assert forall|s: int| 0 <= s < 64 implies #[trigger] bits::mem(ends, s) == ends_run(files)(s) by {
        bits::mem_shr(w, 1, s);
    }
    sums::lemma_how_many(ends, ends_run(files));
    assert forall|s: int| #[trigger] bits::mem(ends, s) implies s < 8 by {
        lemma_files(files, s);
    }
    bits::lemma_ones_numbered(ends, |s: int| s, 8);
}

} // verus!
