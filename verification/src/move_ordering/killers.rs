//! Killer moves: quiet moves that refuted a sibling at the same ply. Two are
//! kept for each ply, the latest first.
use vstd::prelude::*;
use crate::types::RawMove;

verus! {

/// How many killers are kept for a ply.
pub const KILLERS_PER_PLY: usize = 2;

/// The killers of the plies. Beyond the last ply all plies share one entry.
#[derive(Clone, Copy, Debug)]
pub struct Killers {
    latest: [u16; 136],
    second: [u16; 136],
}

/// The entry of a ply.
pub open spec fn entry_of(ply: int) -> int {
    if ply < 135 {
        ply
    } else {
        135
    }
}

/// The killers of a ply after one more; one that is the latest already stays so.
pub open spec fn stored(k: (RawMove, RawMove), m: RawMove) -> (RawMove, RawMove) {
    if k.0 == m {
        k
    } else {
        (m, k.0)
    }
}

impl Killers {
    /// The killers of an entry, the latest first.
    pub closed spec fn at(&self, i: int) -> (RawMove, RawMove) {
        (RawMove::with_word(self.latest@[i]), RawMove::with_word(self.second@[i]))
    }

    pub fn new() -> (r: Killers)
        ensures
            forall|i: int|
                0 <= i < 136 ==> #[trigger] r.at(i) == (
                    RawMove::made(0, 0, 0),
                    RawMove::made(0, 0, 0),
                ),
    {
        let none: RawMove = RawMove::null();
        proof {
            none.lemma_word(none.raw_spec());
        }
        Killers { latest: [none.raw();136], second: [none.raw();136] }
    }

    /// Forgets all killers.
    pub fn reset(&mut self)
        ensures
            forall|i: int|
                0 <= i < 136 ==> #[trigger] final(self).at(i) == (
                    RawMove::made(0, 0, 0),
                    RawMove::made(0, 0, 0),
                ),
    {
        *self = Killers::new();
    }

    /// The killers of a ply, the latest first.
    pub fn get(&self, ply: usize) -> (r: (RawMove, RawMove))
        ensures
            r == self.at(entry_of(ply as int)),
    {
        let i: usize = if ply < 135 {
            ply
        } else {
            135
        };
        (RawMove::of_raw(self.latest[i]), RawMove::of_raw(self.second[i]))
    }

    /// Makes `m` the latest killer of a ply, and the latest one before it the
    /// second.
    pub fn store(&mut self, ply: usize, m: RawMove)
        ensures
            final(self).at(entry_of(ply as int)) == stored(old(self).at(entry_of(ply as int)), m),
            forall|i: int|
                0 <= i < 136 && i != entry_of(ply as int) ==> #[trigger] final(self).at(i) == old(
                    self,
                ).at(i),
    {
        let i: usize = if ply < 135 {
            ply
        } else {
            135
        };
        if RawMove::of_raw(self.latest[i]) == m {
            return ;
        }
        proof {
            m.lemma_word(m.raw_spec());
        }
        self.second[i] = self.latest[i];
        self.latest[i] = m.raw();
    }
}

impl Default for Killers {
    fn default() -> (r: Self)
        ensures
            forall|i: int|
                0 <= i < 136 ==> #[trigger] r.at(i) == (
                    RawMove::made(0, 0, 0),
                    RawMove::made(0, 0, 0),
                ),
    {
        Killers::new()
    }
}

/// A killer that is stored is the latest one. The one before it is kept as the second,
/// and storing a killer again changes nothing.
pub proof fn law_latest_first(k: (RawMove, RawMove), m: RawMove, n: RawMove)
    ensures
        stored(k, m).0 == m,
        m != n ==> stored(stored(k, m), n) == (n, m),
        stored(stored(k, m), m) == stored(k, m),
        k.0 != k.1 ==> stored(k, m).0 != stored(k, m).1,
{
}

/// Plies below the last have killers of their own.
pub proof fn law_plies_apart(p: int, q: int)
    requires
        0 <= p < 136,
        0 <= q < 136,
    ensures
        entry_of(p) == entry_of(q) <==> p == q,
        0 <= entry_of(p) < 136,
{
}

} // verus!
