//! Time allocation during a search.
use vstd::prelude::*;
use std::time::{Duration, Instant};

verus! {

/// A moment of the monotonic clock (`std::time::Instant`), carried through
/// opaquely.
#[verifier::external_type_specification]
#[verifier::external_body]
pub struct ExInstant(Instant);

/// The current moment (`Instant::now`). Nothing is stated of it: it
/// depends on the clock.
#[verifier::external_body]
fn clock_now() -> (r: Instant) {
    Instant::now()
}

/// The time passed since `start` (`Instant::elapsed`). Nothing is stated
/// of it: it depends on the clock.
#[verifier::external_body]
fn clock_elapsed(start: &Instant) -> (r: Duration) {
    start.elapsed()
}

/// Whole milliseconds of a duration (`Duration::as_millis`). Nothing is
/// stated of the result.
#[verifier::external_body]
fn duration_millis(d: &Duration) -> (r: u128) {
    d.as_millis()
}

/// How a search is limited.
#[derive(Debug, Copy, Clone, PartialEq, Eq, Structural)]
pub enum TimeControl {
    /// No limit: search until stopped.
    Infinite,
    /// A fixed time for this move, in milliseconds.
    MoveTime { millis: u64 },
    /// The players' clocks, in milliseconds.
    Clock {
        /// White's remaining time.
        wtime: u64,
        /// Black's remaining time.
        btime: u64,
        /// White's increment per move.
        winc: u64,
        /// Black's increment per move.
        binc: u64,
        /// Moves until the next time control (`None`: sudden death).
        movestogo: Option<u32>,
    },
    /// A fixed depth.
    Depth { depth: u32 },
    /// A fixed number of nodes.
    Nodes { nodes: u64 },
}

impl Default for TimeControl {
    fn default() -> (r: TimeControl)
        ensures
            r == TimeControl::Infinite,
    {
        TimeControl::Infinite
    }
}

/// The time kept back from the clock: 2% of it, but at least 100 ms (or
/// all of it when less remains).
pub open spec fn safety_margin(time_remaining: int) -> int {
    let a = if time_remaining < 100 { time_remaining } else { 100 };
    let b = time_remaining / 50;
    if a < b { b } else { a }
}

/// The time the clock allows for this move, before the increment.
pub open spec fn base_allocation(available: int, movestogo: Option<u32>) -> int {
    match movestogo {
        Some(m) => if m > 0 { available / (m as int) } else { available / 40 },
        None => available / 40,
    }
}

/// Soft and hard limits, in milliseconds, for a move played on a clock of
/// `time_remaining` with `increment`: with under 100 ms left after the
/// margin, half of it and all of it; otherwise the share of the remaining
/// moves plus three quarters of the increment, and three times that (five
/// times with over ten seconds left) but no more than is available.
pub open spec fn allocation(time_remaining: int, increment: int, movestogo: Option<u32>) -> (int, int) {
    let available = time_remaining - safety_margin(time_remaining);
    if available < 100 {
        (available / 2, available)
    } else {
        let soft = base_allocation(available, movestogo) + (increment * 3) / 4;
        let multiple = if available > 10000 { 5int } else { 3int };
        let hard = if soft * multiple < available { soft * multiple } else { available };
        (soft, hard)
    }
}

/// Whether the allocation for these clock values stays within `u64`.
pub open spec fn allocation_fits(time_remaining: int, increment: int, movestogo: Option<u32>) -> bool {
    let available = time_remaining - safety_margin(time_remaining);
    &&& increment * 3 <= u64::MAX
    &&& base_allocation(available, movestogo) + (increment * 3) / 4 <= u64::MAX
    &&& (base_allocation(available, movestogo) + (increment * 3) / 4) * 5 <= u64::MAX
}

/// The clock of the side to move and its increment.
pub open spec fn own_clock(tc: TimeControl, is_white: bool) -> (u64, u64) {
    match tc {
        TimeControl::Clock { wtime, btime, winc, binc, .. } => if is_white { (wtime, winc) } else { (btime, binc) },
        _ => (0, 0),
    }
}

/// The (soft, hard) limits in milliseconds after the start of the search:
/// none for infinite, depth and node searches; for a move time, that time
/// less 50 ms (at least zero) and the time itself; on a clock, the
/// allocation.
pub open spec fn limits(tc: TimeControl, is_white: bool) -> (Option<u64>, Option<u64>) {
    match tc {
        TimeControl::MoveTime { millis } => (Some(if millis < 50 { 0 } else { (millis - 50) as u64 }), Some(millis)),
        TimeControl::Clock { movestogo, .. } => {
            let (t, inc) = own_clock(tc, is_white);
            let a = allocation(t as int, inc as int, movestogo);
            (Some(a.0 as u64), Some(a.1 as u64))
        },
        _ => (None, None),
    }
}

/// On a clock, the limits are the allocation of the mover's own time and
/// increment: White's come from `wtime` and `winc`, Black's from `btime`
/// and `binc`, and the opponent's clock and increment change nothing.
pub proof fn lemma_clock_limits_own(wtime: u64, btime: u64, winc: u64, binc: u64, movestogo: Option<u32>,
    other_time: u64, other_inc: u64)
    ensures
        limits(TimeControl::Clock { wtime, btime, winc, binc, movestogo }, true) == (
            Some(allocation(wtime as int, winc as int, movestogo).0 as u64),
            Some(allocation(wtime as int, winc as int, movestogo).1 as u64)),
        limits(TimeControl::Clock { wtime, btime, winc, binc, movestogo }, false) == (
            Some(allocation(btime as int, binc as int, movestogo).0 as u64),
            Some(allocation(btime as int, binc as int, movestogo).1 as u64)),
        limits(TimeControl::Clock { wtime, btime, winc, binc, movestogo }, true)
            == limits(TimeControl::Clock { wtime, btime: other_time, winc, binc: other_inc, movestogo }, true),
        limits(TimeControl::Clock { wtime, btime, winc, binc, movestogo }, false)
            == limits(TimeControl::Clock { wtime: other_time, btime, winc: other_inc, binc, movestogo }, false),
        time_control_fits(TimeControl::Clock { wtime, btime, winc, binc, movestogo }, true)
            == allocation_fits(wtime as int, winc as int, movestogo),
        time_control_fits(TimeControl::Clock { wtime, btime, winc, binc, movestogo }, false)
            == allocation_fits(btime as int, binc as int, movestogo),
{
}

/// Whether a time control can be set up without overflow.
pub open spec fn time_control_fits(tc: TimeControl, is_white: bool) -> bool {
    match tc {
        TimeControl::Clock { movestogo, .. } => {
            let (t, inc) = own_clock(tc, is_white);
            allocation_fits(t as int, inc as int, movestogo)
        },
        _ => true,
    }
}

/// Whether a limit, if there is one, has been reached after `elapsed`
/// milliseconds.
pub open spec fn limit_reached(limit: Option<u64>, elapsed: u64) -> bool {
    match limit {
        Some(l) => elapsed >= l,
        None => false,
    }
}

/// Soft and hard time limits of a move.
#[derive(Debug, Copy, Clone)]
struct TimeAllocation {
    soft: u64,
    hard: u64,
}

/// Whether a limit has been reached after `elapsed` milliseconds.
pub fn past_limit(limit: Option<u64>, elapsed: u64) -> (r: bool)
    ensures
        r == limit_reached(limit, elapsed),
{
    match limit {
        Some(l) => elapsed >= l,
        None => false,
    }
}

/// Time allocation for a search.
pub struct TimeManager {
    soft_limit: Option<u64>,
    hard_limit: Option<u64>,
    start_time: Instant,
    time_control: TimeControl,
}

impl TimeManager {
    /// The soft limit: milliseconds after the start.
    pub closed spec fn soft(self) -> Option<u64> {
        self.soft_limit
    }

    /// The hard limit: milliseconds after the start.
    pub closed spec fn hard(self) -> Option<u64> {
        self.hard_limit
    }

    /// The time control.
    pub closed spec fn control(self) -> TimeControl {
        self.time_control
    }

    /// A manager for a search starting now, for white or black to move.
    pub fn new(time_control: TimeControl, is_white: bool) -> (r: TimeManager)
        requires
            time_control_fits(time_control, is_white),
        ensures
            r.control() == time_control,
            (r.soft(), r.hard()) == limits(time_control, is_white),
    {
        let start_time = clock_now();
        let (soft_limit, hard_limit) = Self::calculate_limits(&time_control, is_white);
        TimeManager { soft_limit, hard_limit, start_time, time_control }
    }

    /// The (soft, hard) limits of a time control.
    fn calculate_limits(time_control: &TimeControl, is_white: bool) -> (r: (Option<u64>, Option<u64>))
        requires
            time_control_fits(*time_control, is_white),
        ensures
            r == limits(*time_control, is_white),
    {
        match *time_control {
            TimeControl::MoveTime { millis } => (Some(millis.saturating_sub(50)), Some(millis)),
            TimeControl::Clock { wtime, btime, winc, binc, movestogo } => {
                let (my_time, my_inc) = if is_white { (wtime, winc) } else { (btime, binc) };
                let allocated = Self::allocate_time(my_time, my_inc, movestogo);
                (Some(allocated.soft), Some(allocated.hard))
            },
            _ => (None, None),
        }
    }

    /// The allocation for this move.
    fn allocate_time(time_remaining: u64, increment: u64, movestogo: Option<u32>) -> (r: TimeAllocation)
        requires
            allocation_fits(time_remaining as int, increment as int, movestogo),
        ensures
            (r.soft as int, r.hard as int) == allocation(time_remaining as int, increment as int, movestogo),
    {
        let low: u64 = if time_remaining < 100 { time_remaining } else { 100 };
        let share: u64 = time_remaining / 50;
        let safety_margin: u64 = if low < share { share } else { low };
        let available = time_remaining.saturating_sub(safety_margin);
        if available < 100 {
            return TimeAllocation { soft: available / 2, hard: available };
        }
        let base: u64 = match movestogo {
            Some(mtg) => if mtg > 0 { available / (mtg as u64) } else { available / 40 },
            None => available / 40,
        };
        let base_with_inc = base + (increment * 3) / 4;
        let soft = base_with_inc;
        let max_multiple: u64 = if available > 10000 { 5 } else { 3 };
        assert(soft * max_multiple <= soft * 5) by (nonlinear_arith)
            requires max_multiple <= 5;
        let scaled = soft * max_multiple;
        let hard = if scaled < available { scaled } else { available };
        TimeAllocation { soft, hard }
    }

    /// Milliseconds since the search started (whole milliseconds, kept in
    /// 64 bits).
    pub fn elapsed_ms(&self) -> (r: u64) {
        let d = clock_elapsed(&self.start_time);
        let ms = duration_millis(&d);
        let r: u64 = #[verifier::truncate] (ms as u64);
        r
    }

    /// Whether the soft limit has passed: the search should not start
    /// another iteration. Never without a soft limit.
    pub fn should_stop(&self) -> (r: bool)
        ensures
            r ==> self.soft() is Some,
            exists|elapsed: u64| r == limit_reached(self.soft(), elapsed),
    {
        let elapsed = if self.soft_limit.is_some() { self.elapsed_ms() } else { 0 };
        past_limit(self.soft_limit, elapsed)
    }

    /// Whether the hard limit has passed: the search must stop. Never
    /// without a hard limit.
    pub fn must_stop(&self) -> (r: bool)
        ensures
            r ==> self.hard() is Some,
            exists|elapsed: u64| r == limit_reached(self.hard(), elapsed),
    {
        let elapsed = if self.hard_limit.is_some() { self.elapsed_ms() } else { 0 };
        past_limit(self.hard_limit, elapsed)
    }

    /// The time control.
    pub fn time_control(&self) -> (r: &TimeControl)
        ensures
            *r == self.control(),
    {
        &self.time_control
    }

    /// Whether a depth search has reached its depth.
    pub fn depth_limit_reached(&self, current_depth: u32) -> (r: bool)
        ensures
            r == (self.control() matches TimeControl::Depth { depth } && current_depth >= depth),
    {
        match self.time_control {
            TimeControl::Depth { depth } => current_depth >= depth,
            _ => false,
        }
    }

    /// Whether a node search has reached its node count.
    pub fn node_limit_reached(&self, current_nodes: u64) -> (r: bool)
        ensures
            r == (self.control() matches TimeControl::Nodes { nodes } && current_nodes >= nodes),
    {
        match self.time_control {
            TimeControl::Nodes { nodes } => current_nodes >= nodes,
            _ => false,
        }
    }
}

} // verus!
