//! Value types of the network: colours, piece codes, fixed-capacity index
//! lists and the change records that an accumulator replays.
//!
//! A piece is `1..=6` for White (`Pawn..King`) and `9..=14` for Black, so that
//! its type is the code modulo 8 and its colour the code divided by 8.
use vstd::prelude::*;
use crate::bits;

verus! {

/// A set of squares (`a1` = bit 0 … `h8` = bit 63).
pub type Bitboard = u64;

/// The marker for "no square".
pub const SQ_NONE: usize = 64;

/// Side to move.
#[derive(Copy, Clone, PartialEq, Eq, Debug, Hash, PartialOrd, Ord, Structural)]
pub enum Color {
    White,
    Black,
}

impl Color {
    /// 0 for White, 1 for Black.
    pub open spec fn index(self) -> int {
        match self {
            Color::White => 0,
            Color::Black => 1,
        }
    }

    pub open spec fn opposite(self) -> Color {
        match self {
            Color::White => Color::Black,
            Color::Black => Color::White,
        }
    }

    pub fn idx(self) -> (r: usize)
        ensures
            r == self.index(),
            r < 2,
    {
        match self {
            Color::White => 0,
            Color::Black => 1,
        }
    }

    pub fn other(self) -> (r: Color)
        ensures
            r == self.opposite(),
    {
        match self {
            Color::White => Color::Black,
            Color::Black => Color::White,
        }
    }

    /// White for 0, Black for everything else.
    pub fn from_index(i: usize) -> (r: Color)
        ensures
            r == (if i == 0 {
                Color::White
            } else {
                Color::Black
            }),
    {
        if i == 0 {
            Color::White
        } else {
            Color::Black
        }
    }
}

pub const PAWN: u8 = 1;

pub const KNIGHT: u8 = 2;

pub const BISHOP: u8 = 3;

pub const ROOK: u8 = 4;

pub const QUEEN: u8 = 5;

pub const KING: u8 = 6;

pub const NO_PIECE: u8 = 0;

pub const W_PAWN: u8 = 1;

pub const W_KNIGHT: u8 = 2;

pub const W_BISHOP: u8 = 3;

pub const W_ROOK: u8 = 4;

pub const W_QUEEN: u8 = 5;

pub const W_KING: u8 = 6;

pub const B_PAWN: u8 = 9;

pub const B_KNIGHT: u8 = 10;

pub const B_BISHOP: u8 = 11;

pub const B_ROOK: u8 = 12;

pub const B_QUEEN: u8 = 13;

pub const B_KING: u8 = 14;

pub const PIECE_NB: usize = 16;

/// Material values by piece code; kings are worth nothing.
pub const PIECE_VALUE: [i32; 16] = [
    0,
    208,
    781,
    825,
    1276,
    2538,
    0,
    0,
    0,
    208,
    781,
    825,
    1276,
    2538,
    0,
    0,
];

/// The twelve pieces, White first.
pub const ALL_PIECES: [u8; 12] = [1, 2, 3, 4, 5, 6, 9, 10, 11, 12, 13, 14];

/// `pc` is the code of a piece.
pub open spec fn is_piece(pc: int) -> bool {
    1 <= pc <= 6 || 9 <= pc <= 14
}

proof fn lemma_codes(pc: u8, c: u8)
    by (bit_vector)
    ensures
        pc & 7 == pc % 8,
        pc >> 3 == pc / 8,
        c < 2 && pc < 8 ==> (c << 3) | pc == 8 * c + pc,
{
}

/// The type of a piece: its code without the colour.
pub fn type_of(pc: u8) -> (r: u8)
    ensures
        r == pc % 8,
{
    proof {
        lemma_codes(pc, 0);
    }
    pc & 7
}

/// The colour index of a piece.
pub fn color_of(pc: u8) -> (r: usize)
    ensures
        r == pc / 8,
{
    proof {
        lemma_codes(pc, 0);
    }
    (pc >> 3) as usize
}

/// The piece of type `pt` and colour index `c`.
pub fn make_piece(c: usize, pt: u8) -> (r: u8)
    ensures
        r == (((c as u8) << 3) | pt),
        c < 2 && pt < 8 ==> r == 8 * c + pt,
{
    let cb: u8 = c as u8;
    proof {
        lemma_codes(pt, cb);
    }
    (cb << 3) | pt
}

/// A list that only grows, up to `N` elements; what comes after is dropped.
#[derive(Debug)]
pub struct ValueList<T: Copy, const N: usize> {
    values: Vec<T>,
}

impl<T: Copy, const N: usize> ValueList<T, N> {
    pub closed spec fn view(&self) -> Seq<T> {
        self.values@
    }

    #[verifier::type_invariant]
    spec fn within_capacity(self) -> bool {
        self.values@.len() <= N
    }

    pub fn new() -> (r: Self)
        ensures
            r@ == Seq::<T>::empty(),
    {
        ValueList { values: Vec::new() }
    }

    /// The elements, in the order in which they came.
    pub fn as_slice(&self) -> (r: &[T])
        ensures
            r@ == self@,
            r@.len() <= N,
    {
        proof {
            use_type_invariant(self);
        }
        self.values.as_slice()
    }

    pub fn size(&self) -> (r: usize)
        ensures
            r == self@.len(),
            r <= N,
    {
        proof {
            use_type_invariant(self);
        }
        self.values.len()
    }

    pub fn is_empty(&self) -> (r: bool)
        ensures
            r == (self@.len() == 0),
    {
        self.values.len() == 0
    }

    /// Appends `v`, unless the list is full.
    pub fn push(&mut self, v: T)
        ensures
            final(self)@ == bits::capped(old(self)@.push(v), N as int),
            final(self)@.len() <= N,
    {
        proof {
            use_type_invariant(&*self);
        }
        let ghost before = self@;
        if self.values.len() < N {
            let mut values: Vec<T> = Vec::new();
            std::mem::swap(&mut values, &mut self.values);
            values.push(v);
            self.values = values;
        } else {
            assert(bits::capped(before.push(v), N as int) =~= before);
        }
    }
}

impl<const N: usize> ValueList<u16, N> {
    /// Appends `v` only where it is below `limit`.
    pub fn push_if_lt(&mut self, v: u16, limit: usize)
        ensures
            final(self)@ == (if (v as usize) < limit {
                bits::capped(old(self)@.push(v), N as int)
            } else {
                old(self)@
            }),
    {
        if (v as usize) < limit {
            self.push(v);
        }
    }
}

impl<T: Copy, const N: usize> Clone for ValueList<T, N> {
    fn clone(&self) -> (r: Self)
        ensures
            r@ == self@,
    {
        proof {
            use_type_invariant(self);
        }
        let mut values: Vec<T> = Vec::new();
        let mut i: usize = 0;
        while i < self.values.len()
            invariant
                i <= self.values@.len(),
                values@ == self.values@.take(i as int),
                self.values@.len() <= N,
            decreases self.values@.len() - i,
        {
            values.push(self.values[i]);
            i = i + 1;
        }
        ValueList { values }
    }
}

impl<T: Copy, const N: usize> Default for ValueList<T, N> {
    fn default() -> (r: Self)
        ensures
            r@ == Seq::<T>::empty(),
    {
        ValueList::new()
    }
}

/// The pieces that a move changed.
#[derive(Copy, Clone, Debug, PartialEq, Eq, Structural)]
pub struct DirtyPiece {
    /// The piece that moved; never `NO_PIECE`.
    pub pc: u8,
    /// Where it stood.
    pub from: usize,
    /// Where it went; `SQ_NONE` for promotions, where `add_sq` says it.
    pub to: usize,
    /// Where another piece left the board; `SQ_NONE` when none did.
    pub remove_sq: usize,
    /// Where another piece came onto the board; `SQ_NONE` when none did.
    pub add_sq: usize,
    /// The piece that left `remove_sq`.
    pub remove_pc: u8,
    /// The piece that came to `add_sq`.
    pub add_pc: u8,
}

impl DirtyPiece {
    pub fn new(pc: u8, from: usize, to: usize) -> (r: Self)
        ensures
            r == (DirtyPiece {
                pc,
                from,
                to,
                remove_sq: SQ_NONE,
                add_sq: SQ_NONE,
                remove_pc: NO_PIECE,
                add_pc: NO_PIECE,
            }),
    {
        DirtyPiece {
            pc,
            from,
            to,
            remove_sq: SQ_NONE,
            add_sq: SQ_NONE,
            remove_pc: NO_PIECE,
            add_pc: NO_PIECE,
        }
    }
}

impl Default for DirtyPiece {
    fn default() -> (r: Self)
        ensures
            r == (DirtyPiece {
                pc: 0,
                from: 0,
                to: 0,
                remove_sq: 0,
                add_sq: 0,
                remove_pc: 0,
                add_pc: 0,
            }),
    {
        DirtyPiece { pc: 0, from: 0, to: 0, remove_sq: 0, add_sq: 0, remove_pc: 0, add_pc: 0 }
    }
}

/// One attack of a piece on another piece.
pub struct Threat {
    pub pc: int,
    pub threatened_pc: int,
    pub pc_sq: int,
    pub threatened_sq: int,
}

/// An attack that a move made or ended, packed into 32 bits: the attacker's
/// square in bits 0..8, the target's square in bits 8..16, the target in bits
/// 16..20, the attacker in bits 20..24 and "made" in bit 31.
#[derive(Copy, Clone, Debug, PartialEq, Eq, Structural)]
pub struct DirtyThreat(u32);

impl DirtyThreat {
    /// The packed word.
    pub closed spec fn word(self) -> u32 {
        self.0
    }

    /// The attack that the word describes.
    pub open spec fn threat(self) -> Threat {
        Threat {
            pc: ((self.word() >> 20) & 0xf) as int,
            threatened_pc: ((self.word() >> 16) & 0xf) as int,
            pc_sq: (self.word() & 0xff) as int,
            threatened_sq: ((self.word() >> 8) & 0xff) as int,
        }
    }

    /// The record of an attack.
    pub closed spec fn packed(t: Threat, add: bool) -> DirtyThreat {
        DirtyThreat(
            ((if add {
                1u32
            } else {
                0u32
            }) << 31) | ((t.pc as u32) << 20) | ((t.threatened_pc as u32) << 16) | ((
            t.threatened_sq as u32) << 8) | (t.pc_sq as u32),
        )
    }

    /// A record gives back the attack it was made of.
    pub proof fn lemma_packed(t: Threat, add: bool)
        requires
            0 <= t.pc < 16,
            0 <= t.threatened_pc < 16,
            0 <= t.pc_sq < 256,
            0 <= t.threatened_sq < 256,
        ensures
            Self::packed(t, add).threat() == t,
            Self::packed(t, add).made() == add,
    {
        let a: u32 = if add {
            1
        } else {
            0
        };
        let p: u32 = t.pc as u32;
        let q: u32 = t.threatened_pc as u32;
        let ps: u32 = t.pc_sq as u32;
        let ts: u32 = t.threatened_sq as u32;
        let w: u32 = (a << 31) | (p << 20) | (q << 16) | (ts << 8) | ps;
        assert(a <= 1 && p < 16 && q < 16 && ps < 256 && ts < 256 ==> (w >> 31) == a && ((w >> 20)
            & 0xf) == p && ((w >> 16) & 0xf) == q && (w & 0xff) == ps && ((w >> 8) & 0xff) == ts)
            by (bit_vector)
            requires
                w == (a << 31) | (p << 20) | (q << 16) | (ts << 8) | ps,
        ;
    }

    /// Whether the attack was made rather than ended.
    pub open spec fn made(self) -> bool {
        self.word() >> 31 != 0
    }

    pub fn new(
        pc: u8,
        threatened_pc: u8,
        pc_sq: usize,
        threatened_sq: usize,
        add: bool,
    ) -> (r: Self)
        ensures
            r == Self::packed(
                (Threat {
                    pc: pc as int,
                    threatened_pc: threatened_pc as int,
                    pc_sq: pc_sq as int,
                    threatened_sq: threatened_sq as int,
                }),
                add,
            ),
            pc < 16 && threatened_pc < 16 && pc_sq < 256 && threatened_sq < 256 ==> r.made() == add
                && r.threat() == (Threat {
                pc: pc as int,
                threatened_pc: threatened_pc as int,
                pc_sq: pc_sq as int,
                threatened_sq: threatened_sq as int,
            }),
    {
        let a: u32 = if add {
            1
        } else {
            0
        };
        proof {
            let t = Threat {
                pc: pc as int,
                threatened_pc: threatened_pc as int,
                pc_sq: pc_sq as int,
                threatened_sq: threatened_sq as int,
            };
            if pc < 16 && threatened_pc < 16 && pc_sq < 256 && threatened_sq < 256 {
                Self::lemma_packed(t, add);
            }
        }
        DirtyThreat(
            (a << 31) | ((pc as u32) << 20) | ((threatened_pc as u32) << 16) | ((
            threatened_sq as u32) << 8) | (pc_sq as u32),
        )
    }

    /// The attacking piece.
    pub fn pc(self) -> (r: u8)
        ensures
            r == self.threat().pc,
            r < 16,
    {
        proof {
            lemma_fields(self.0);
        }
        ((self.0 >> 20) & 0xf) as u8
    }

    /// The attacked piece.
    pub fn threatened_pc(self) -> (r: u8)
        ensures
            r == self.threat().threatened_pc,
            r < 16,
    {
        proof {
            lemma_fields(self.0);
        }
        ((self.0 >> 16) & 0xf) as u8
    }

    pub fn threatened_sq(self) -> (r: usize)
        ensures
            r == self.threat().threatened_sq,
            r < 256,
    {
        proof {
            lemma_fields(self.0);
        }
        ((self.0 >> 8) & 0xff) as usize
    }

    /// The square that the attacker stands on.
    pub fn pc_sq(self) -> (r: usize)
        ensures
            r == self.threat().pc_sq,
            r < 256,
    {
        proof {
            lemma_fields(self.0);
        }
        (self.0 & 0xff) as usize
    }

    /// Whether the attack was made.
    pub fn add(self) -> (r: bool)
        ensures
            r == self.made(),
    {
        self.0 >> 31 != 0
    }
}

proof fn lemma_fields(w: u32)
    by (bit_vector)
    ensures
        (w >> 20) & 0xf < 16,
        (w >> 16) & 0xf < 16,
        (w >> 8) & 0xff < 256,
        w & 0xff < 256,
{
}

impl Default for DirtyThreat {
    fn default() -> (r: Self)
        ensures
            r.word() == 0,
    {
        DirtyThreat(0)
    }
}

/// Every attack that a move touched.
#[derive(Debug)]
pub struct DirtyThreats {
    pub list: ValueList<DirtyThreat, 96>,
}

impl DirtyThreats {
    pub fn new() -> (r: Self)
        ensures
            r.list@ == Seq::<DirtyThreat>::empty(),
    {
        DirtyThreats { list: ValueList::new() }
    }

    pub fn push(&mut self, t: DirtyThreat)
        ensures
            final(self).list@ == bits::capped(old(self).list@.push(t), 96),
            final(self).list@.len() <= 96,
    {
        self.list.push(t);
    }
}

impl Clone for DirtyThreats {
    fn clone(&self) -> (r: Self)
        ensures
            r.list@ == self.list@,
    {
        DirtyThreats { list: self.list.clone() }
    }
}

impl Default for DirtyThreats {
    fn default() -> (r: Self)
        ensures
            r.list@ == Seq::<DirtyThreat>::empty(),
    {
        DirtyThreats::new()
    }
}

/// The pawns of each colour before and after a move.
#[derive(Copy, Clone, Debug)]
pub struct DirtyPawnPairs {
    pub before: [Bitboard; 2],
    pub after: [Bitboard; 2],
}

impl Default for DirtyPawnPairs {
    fn default() -> (r: Self)
        ensures
            r.before@ == seq![0u64, 0u64],
            r.after@ == seq![0u64, 0u64],
    {
        DirtyPawnPairs { before: [0, 0], after: [0, 0] }
    }
}

} // verus!
