//! Where the pieces stand.
use vstd::prelude::*;
use crate::bits;
use crate::nnue::board;
use crate::nnue::types::Color;
use crate::nnue::types;
use crate::types::Role;

verus! {

/// The squares of the pieces, by kind and by colour.
#[derive(Copy, Clone, Debug, PartialEq, Eq, Structural)]
pub struct Placement {
    pub pawns: u64,
    pub knights: u64,
    pub bishops: u64,
    pub rooks: u64,
    pub queens: u64,
    pub kings: u64,
    pub white: u64,
    pub black: u64,
}

impl Placement {
    /// The squares of a kind of piece.
    pub open spec fn kind(self, role: Role) -> u64 {
        match role {
            Role::Pawn => self.pawns,
            Role::Knight => self.knights,
            Role::Bishop => self.bishops,
            Role::Rook => self.rooks,
            Role::Queen => self.queens,
            Role::King => self.kings,
        }
    }

    /// The squares of a colour.
    pub open spec fn side(self, c: Color) -> u64 {
        match c {
            Color::White => self.white,
            Color::Black => self.black,
        }
    }

    /// The code of the kind of piece on a square, 0 where it is empty.
    pub open spec fn role_code(self, s: int) -> int {
        if bits::mem(self.pawns, s) {
            1
        } else if bits::mem(self.knights, s) {
            2
        } else if bits::mem(self.bishops, s) {
            3
        } else if bits::mem(self.rooks, s) {
            4
        } else if bits::mem(self.queens, s) {
            5
        } else if bits::mem(self.kings, s) {
            6
        } else {
            0
        }
    }

    /// The code of the piece on a square, 0 where it is empty.
    pub open spec fn piece_code(self, s: int) -> int {
        let r = self.role_code(s);
        if r != 0 && bits::mem(self.black, s) {
            r + 8
        } else {
            r
        }
    }

    /// The pieces by square.
    pub open spec fn sq(self) -> Seq<u8> {
        Seq::new(64, |s: int| self.piece_code(s) as u8)
    }

    /// No square holds two pieces, and every piece has a kind and a colour.
    pub open spec fn consistent(self) -> bool {
        forall|s: int|
            #![trigger self.role_code(s)]
            #![trigger bits::mem(self.white, s)]
            #![trigger bits::mem(self.black, s)]
            0 <= s < 64 ==> {
                &&& bits::mem(self.white, s) || bits::mem(self.black, s) <==> self.role_code(s) != 0
                &&& !(bits::mem(self.white, s) && bits::mem(self.black, s))
                &&& bits::mem(self.pawns, s) ==> self.role_code(s) == 1
                &&& bits::mem(self.knights, s) ==> self.role_code(s) == 2
                &&& bits::mem(self.bishops, s) ==> self.role_code(s) == 3
                &&& bits::mem(self.rooks, s) ==> self.role_code(s) == 4
                &&& bits::mem(self.queens, s) ==> self.role_code(s) == 5
                &&& bits::mem(self.kings, s) ==> self.role_code(s) == 6
            }
    }

    /// The placement can stand on a board: each side has one king and at most
    /// sixteen pieces, and no pawn stands on the first or the last rank.
    pub open spec fn wf(self) -> bool {
        &&& self.consistent()
        &&& bits::ones(self.white) <= 16
        &&& bits::ones(self.black) <= 16
        &&& bits::ones(self.kings & self.white) == 1
        &&& bits::ones(self.kings & self.black) == 1
        &&& forall|s: int| #[trigger] bits::mem(self.pawns, s) ==> 8 <= s <= 55
    }

    /// The pieces by square are pieces.
    pub proof fn lemma_sq(self)
        ensures
            board::valid_squares(self.sq()),
    {
        assert forall|s: int| 0 <= s < 64 implies #[trigger] self.sq()[s] == 0 || types::is_piece(
            self.sq()[s] as int,
        ) by {}
    }

    pub fn occupied(&self) -> (r: u64)
        ensures
            r == self.white | self.black,
            forall|s: int| #[trigger]
                bits::mem(r, s) == (bits::mem(self.white, s) || bits::mem(self.black, s)),
    {
        broadcast use bits::group_mem;

        self.white | self.black
    }

    pub fn by_color(&self, c: Color) -> (r: u64)
        ensures
            r == self.side(c),
    {
        match c {
            Color::White => self.white,
            Color::Black => self.black,
        }
    }

    pub fn by_role(&self, role: Role) -> (r: u64)
        ensures
            r == self.kind(role),
    {
        match role {
            Role::Pawn => self.pawns,
            Role::Knight => self.knights,
            Role::Bishop => self.bishops,
            Role::Rook => self.rooks,
            Role::Queen => self.queens,
            Role::King => self.kings,
        }
    }

    /// The squares of the pieces of a kind and a colour.
    pub fn by_piece(&self, c: Color, role: Role) -> (r: u64)
        ensures
            r == self.kind(role) & self.side(c),
            forall|s: int| #[trigger]
                bits::mem(r, s) == (bits::mem(self.kind(role), s) && bits::mem(self.side(c), s)),
    {
        broadcast use bits::group_mem;

        self.by_role(role) & self.by_color(c)
    }

    /// The kind of piece on a square.
    pub open spec fn role_on(self, s: int) -> Option<Role> {
        let r = self.role_code(s);
        if r == 1 {
            Some(Role::Pawn)
        } else if r == 2 {
            Some(Role::Knight)
        } else if r == 3 {
            Some(Role::Bishop)
        } else if r == 4 {
            Some(Role::Rook)
        } else if r == 5 {
            Some(Role::Queen)
        } else if r == 6 {
            Some(Role::King)
        } else {
            None
        }
    }

    /// The kind of piece on a square.
    pub fn role_at(&self, s: usize) -> (r: Option<Role>)
        ensures
            r == self.role_on(s as int),
    {
        if bits::contains(self.pawns, s) {
            Some(Role::Pawn)
        } else if bits::contains(self.knights, s) {
            Some(Role::Knight)
        } else if bits::contains(self.bishops, s) {
            Some(Role::Bishop)
        } else if bits::contains(self.rooks, s) {
            Some(Role::Rook)
        } else if bits::contains(self.queens, s) {
            Some(Role::Queen)
        } else if bits::contains(self.kings, s) {
            Some(Role::King)
        } else {
            None
        }
    }

    /// The code of the piece on a square, 0 where it is empty.
    pub fn code_at(&self, s: usize) -> (r: u8)
        ensures
            r == self.piece_code(s as int),
            r == 0 || types::is_piece(r as int),
    {
        match self.role_at(s) {
            Some(role) => if bits::contains(self.black, s) {
                role.code() + 8
            } else {
                role.code()
            },
            None => 0,
        }
    }

    /// The lowest square of a king of a colour; 64 where there is none.
    pub open spec fn king_sq(self, c: Color) -> int {
        if self.kings & self.side(c) == 0 {
            64
        } else {
            bits::lsb(self.kings & self.side(c))
        }
    }

    /// The square of the king of a colour.
    pub fn king_of(&self, c: Color) -> (r: Option<usize>)
        ensures
            r is Some <==> self.kings & self.side(c) != 0,
            r matches Some(s) ==> s == self.king_sq(c) && s < 64 && bits::mem(
                self.kings & self.side(c),
                s as int,
            ),
    {
        let k: u64 = self.kings & self.by_color(c);
        if k == 0 {
            None
        } else {
            proof {
                bits::lemma_lsb(k);
            }
            Some(k.trailing_zeros() as usize)
        }
    }
}

} // verus!
