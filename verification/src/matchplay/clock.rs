//! Time controls, and the clock of one side.
use vstd::prelude::*;

verus! {

/// How long a side may think. Times are in milliseconds.
#[derive(Debug, Clone, Copy, PartialEq, Eq, Structural)]
pub enum TimeControl {
    /// Each move is searched to a depth.
    Depth(i32),
    /// Each move has a fixed time.
    FixedMove(u64),
    /// So many moves in a time, and something more for each move.
    Classic { moves: u32, base_ms: u64, inc_ms: u64 },
}

impl TimeControl {
    /// Whether the same match is played again whatever the machine does.
    pub fn is_deterministic(&self) -> (r: bool)
        ensures
            r == (self is Depth),
    {
        match self {
            TimeControl::Depth(_) => true,
            _ => false,
        }
    }
}

/// What a side may use of its time: nine tenths, and at least a millisecond.
pub open spec fn usable(remaining_ms: int) -> int {
    if 9 * remaining_ms / 10 < 1 {
        1
    } else {
        9 * remaining_ms / 10
    }
}

/// The time for one move.
pub open spec fn budget(remaining_ms: int, tc: TimeControl) -> int {
    match tc {
        TimeControl::Depth(_) => 0,
        TimeControl::FixedMove(ms) => if ms < 1 {
            1
        } else {
            ms as int
        },
        TimeControl::Classic { inc_ms, .. } => {
            let share = usable(remaining_ms) / 25 + inc_ms;
            if share < usable(remaining_ms) {
                share
            } else {
                usable(remaining_ms)
            }
        },
    }
}

/// The time for one move: the whole time where it is fixed, and otherwise a
/// twenty-fifth of what may be used and what the move brings, but no more than
/// may be used.
pub fn move_budget(remaining_ms: u64, tc: &TimeControl) -> (r: u64)
    ensures
        r == budget(remaining_ms as int, *tc),
{
    match tc {
        TimeControl::Depth(_) => 0,
        TimeControl::FixedMove(ms) => if *ms < 1 {
            1
        } else {
            *ms
        },
        TimeControl::Classic { inc_ms, .. } => {
            let tenths: u128 = 9 * (remaining_ms as u128) / 10;
            let most: u64 = if tenths < 1 {
                1
            } else {
                tenths as u64
            };
            let share: u128 = (most / 25) as u128 + *inc_ms as u128;
            if share < most as u128 {
                share as u64
            } else {
                most
            }
        },
    }
}

/// What a search is told of its limits.
#[derive(Debug, Clone, Copy, PartialEq, Eq, Structural)]
pub struct TimeLimit {
    pub depth: Option<i32>,
    pub nodes: Option<u64>,
    pub movetime_ms: Option<u64>,
    pub soft_ms: u64,
    pub hard_ms: u64,
    pub infinite: bool,
}

/// An eighth of the time for a move, and at least 25 milliseconds.
pub open spec fn grace(budget_ms: int) -> int {
    if budget_ms / 8 < 25 {
        25
    } else {
        budget_ms / 8
    }
}

/// The limits of a search that has a time for its move.
pub open spec fn limits(tc: TimeControl, budget_ms: u64) -> TimeLimit {
    match tc {
        TimeControl::Depth(d) => TimeLimit {
            depth: Some(d),
            nodes: None,
            movetime_ms: None,
            soft_ms: 0,
            hard_ms: 0,
            infinite: true,
        },
        TimeControl::FixedMove(_) => TimeLimit {
            depth: None,
            nodes: None,
            movetime_ms: Some(budget_ms),
            soft_ms: budget_ms,
            hard_ms: budget_ms,
            infinite: true,
        },
        TimeControl::Classic { .. } => TimeLimit {
            depth: None,
            nodes: None,
            movetime_ms: None,
            soft_ms: budget_ms,
            hard_ms: if budget_ms + grace(budget_ms as int) > u64::MAX {
                u64::MAX
            } else {
                (budget_ms + grace(budget_ms as int)) as u64
            },
            infinite: true,
        },
    }
}

/// The limits of a search that has a time for its move.
pub fn time_limit_for(tc: &TimeControl, budget_ms: u64) -> (r: TimeLimit)
    ensures
        r == limits(*tc, budget_ms),
{
    match tc {
        TimeControl::Depth(d) => TimeLimit {
            depth: Some(*d),
            nodes: None,
            movetime_ms: None,
            soft_ms: 0,
            hard_ms: 0,
            infinite: true,
        },
        TimeControl::FixedMove(_) => TimeLimit {
            depth: None,
            nodes: None,
            movetime_ms: Some(budget_ms),
            soft_ms: budget_ms,
            hard_ms: budget_ms,
            infinite: true,
        },
        TimeControl::Classic { .. } => {
            let more: u64 = if budget_ms / 8 < 25 {
                25
            } else {
                budget_ms / 8
            };
            let hard_ms: u64 = if budget_ms > u64::MAX - more {
                u64::MAX
            } else {
                budget_ms + more
            };
            TimeLimit {
                depth: None,
                nodes: None,
                movetime_ms: None,
                soft_ms: budget_ms,
                hard_ms,
                infinite: true,
            }
        },
    }
}

/// The clock of one side.
#[derive(Debug, Clone, Copy, PartialEq, Eq, Structural)]
pub struct Clock {
    /// What is left, in milliseconds.
    pub remaining_ms: u64,
    /// The moves since time was last added for a number of moves.
    pub cycle_done: u32,
}

/// A time with more added; it is never more than a clock can show.
pub open spec fn added(ms: int, more: int) -> int {
    if ms + more > u64::MAX {
        u64::MAX as int
    } else {
        ms + more
    }
}

/// The base time of a control, at least a millisecond; nothing without one.
pub open spec fn base(tc: TimeControl) -> int {
    match tc {
        TimeControl::Classic { base_ms, .. } => if base_ms < 1 {
            1
        } else {
            base_ms as int
        },
        _ => 0,
    }
}

/// A clock after a move that took `used_ms`: the time is taken off, but no more than
/// there is; then the move brings its time, and the last move of a cycle the base
/// time.
pub open spec fn ticked(c: Clock, used_ms: int, tc: TimeControl) -> Clock {
    match tc {
        TimeControl::Classic { moves, inc_ms, .. } => {
            let left = if used_ms > c.remaining_ms {
                0
            } else {
                c.remaining_ms - used_ms
            };
            let paid = added(left, inc_ms as int);
            if moves == 0 {
                Clock { remaining_ms: paid as u64, cycle_done: c.cycle_done }
            } else if c.cycle_done + 1 >= moves {
                Clock { remaining_ms: added(paid, base(tc)) as u64, cycle_done: 0 }
            } else {
                Clock { remaining_ms: paid as u64, cycle_done: (c.cycle_done + 1) as u32 }
            }
        },
        _ => c,
    }
}

/// A sum that stays at the largest number.
fn sum(a: u64, b: u64) -> (r: u64)
    ensures
        r == added(a as int, b as int),
{
    if a > u64::MAX - b {
        u64::MAX
    } else {
        a + b
    }
}

impl Clock {
    /// A clock at the start of a game.
    pub fn new(tc: &TimeControl) -> (r: Clock)
        ensures
            r.remaining_ms == base(*tc),
            r.cycle_done == 0,
    {
        let remaining_ms: u64 = match tc {
            TimeControl::Classic { base_ms, .. } => if *base_ms < 1 {
                1
            } else {
                *base_ms
            },
            _ => 0,
        };
        Clock { remaining_ms, cycle_done: 0 }
    }

    /// Takes off the time of a move, adds what the move brings, and at the end of a
    /// cycle the base time.
    pub fn tick(&mut self, used_ms: u128, tc: &TimeControl)
        ensures
            *final(self) == ticked(*old(self), used_ms as int, *tc),
    {
        match tc {
            TimeControl::Classic { moves, base_ms, inc_ms } => {
                let left: u64 = if used_ms > self.remaining_ms as u128 {
                    0
                } else {
                    self.remaining_ms - used_ms as u64
                };
                self.remaining_ms = sum(left, *inc_ms);
                if *moves > 0 {
                    if self.cycle_done >= *moves - 1 {
                        let more: u64 = if *base_ms < 1 {
                            1
                        } else {
                            *base_ms
                        };
                        self.remaining_ms = sum(self.remaining_ms, more);
                        self.cycle_done = 0;
                    } else {
                        self.cycle_done = self.cycle_done + 1;
                    }
                }
            },
            _ => {},
        }
    }
}

// --- laws -----------------------------------------------------------------------------------------

/// A side that keeps to the time for its move cannot run out of time: a tenth is
/// left.
pub proof fn law_reserve_is_kept(c: Clock, tc: TimeControl, used_ms: int)
    requires
        tc is Classic,
        c.remaining_ms >= 2,
        0 <= used_ms <= budget(c.remaining_ms as int, tc),
    ensures
        10 * ticked(c, used_ms, tc).remaining_ms >= c.remaining_ms,
        ticked(c, used_ms, tc).remaining_ms > 0,
{
}

/// The clock counts the moves of a cycle, and a cycle has so many moves as the
/// control says.
pub proof fn law_cycle(c: Clock, tc: TimeControl, used_ms: int)
    requires
        tc matches TimeControl::Classic { moves, .. } && c.cycle_done < moves,
    ensures
        tc matches TimeControl::Classic { moves, .. } ==> ticked(c, used_ms, tc).cycle_done
            == (c.cycle_done + 1) % (moves as int) && ticked(c, used_ms, tc).cycle_done < moves,
{
    if let TimeControl::Classic { moves, .. } = tc {
        if c.cycle_done + 1 < moves {
            vstd::arithmetic::div_mod::lemma_small_mod(
                (c.cycle_done + 1) as nat,
                moves as nat,
            );
        } else {
            vstd::arithmetic::div_mod::lemma_mod_self_0(moves as int);
        }
    }
}

/// A move costs the time that it took and brings its increment, and the last move of a cycle
/// brings the base time: no time is lost or found. What a clock shows is never less than
/// nothing.
pub proof fn law_time_is_accounted_for(
    c: Clock,
    tc: TimeControl,
    used_ms: int,
    moves: u32,
    base_ms: u64,
    inc_ms: u64,
)
    requires
        tc == (TimeControl::Classic { moves, base_ms, inc_ms }),
        0 <= used_ms,
        c.remaining_ms + inc_ms + base_ms + 1 <= u64::MAX,
    ensures
        ({
            let after = ticked(c, used_ms, tc).remaining_ms;
            let spent = if used_ms <= c.remaining_ms {
                used_ms
            } else {
                c.remaining_ms as int
            };
            let last = moves > 0 && c.cycle_done + 1 >= moves;
            &&& !last ==> after + spent == c.remaining_ms + inc_ms
            &&& last && base_ms > 0 ==> after + spent == c.remaining_ms + inc_ms + base_ms
        }),
{
}

/// Who thinks longer has no more time left.
pub proof fn law_thinking_costs(c: Clock, tc: TimeControl, used_ms: int, more_ms: int)
    requires
        0 <= used_ms <= more_ms,
    ensures
        ticked(c, more_ms, tc).remaining_ms <= ticked(c, used_ms, tc).remaining_ms,
        ticked(c, more_ms, tc).cycle_done == ticked(c, used_ms, tc).cycle_done,
        !(tc is Classic) ==> ticked(c, used_ms, tc) == c,
{
}

/// The time for a move: a fixed time is used whole. Otherwise it is at most nine tenths of
/// what is left, grows with what is left and with the increment, and is nine in two hundred
/// and fifty of it without one.
pub proof fn law_budgets(ms: int, more: int, moves: u32, base_ms: u64, inc_ms: u64, inc2: u64)
    requires
        1 <= ms <= more,
        inc_ms <= inc2,
    ensures
        ({
            let tc = TimeControl::Classic { moves, base_ms, inc_ms };
            let tc2 = TimeControl::Classic { moves, base_ms, inc_ms: inc2 };
            let plain = TimeControl::Classic { moves, base_ms, inc_ms: 0 };
            &&& 0 <= budget(ms, tc) <= ms
            &&& ms >= 10 ==> 10 * budget(ms, tc) <= 9 * ms
            &&& budget(ms, tc) <= budget(more, tc)
            &&& budget(ms, tc) <= budget(ms, tc2)
            &&& ms >= 50 ==> budget(250 * ms, plain) == 9 * ms
            &&& 3 * inc_ms <= ms && ms >= 50 ==> budget(ms, tc) == budget(ms, plain) + inc_ms
        }),
        inc_ms >= 1 ==> budget(ms, TimeControl::FixedMove(inc_ms)) == inc_ms,
        budget(ms, TimeControl::Depth(6)) == 0,
{
}

/// What a search is told: the depth where a depth is agreed, the time where the time is fixed,
/// and otherwise to stop at the time for the move if it can and an eighth of it later in any
/// case.
pub proof fn law_limits(tc: TimeControl, ms: u64, d: i32)
    requires
        ms <= 0x1000_0000_0000_0000,
    ensures
        limits(TimeControl::Depth(d), ms).depth == Some(d),
        tc is FixedMove ==> limits(tc, ms).movetime_ms == Some(ms) && limits(tc, ms).depth is None,
        tc is Classic ==> limits(tc, ms).movetime_ms is None && limits(tc, ms).depth is None,
        !(tc is Depth) ==> limits(tc, ms).soft_ms == ms,
        tc is Classic ==> limits(tc, ms).hard_ms >= ms + 25,
        tc is Classic && ms >= 200 ==> 8 * (limits(tc, ms).hard_ms - ms) <= ms < 8 * (limits(
            tc,
            ms,
        ).hard_ms - ms) + 8,
        tc is Classic && ms < 200 ==> limits(tc, ms).hard_ms == ms + 25,
        limits(tc, ms).nodes is None,
{
}

} // verus!
