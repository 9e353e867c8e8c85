//! Types of the engine's interface: options, search limits, scores,
//! search reports and best moves.
use vstd::prelude::*;

verus! {

/// Engine options.
#[derive(Debug, Clone)]
pub struct EngineOptions {
    /// Transposition table size in megabytes.
    pub hash_size_mb: u32,
    /// Search threads.
    pub threads: u32,
    /// Contempt, if set.
    pub contempt: Option<i32>,
    /// Skill level, if set.
    pub skill_level: Option<u32>,
    /// Principal variations to report, if set.
    pub multi_pv: Option<u32>,
    /// Whether to use tablebases, if set.
    pub use_tablebases: Option<bool>,
}

/// How far to search.
#[derive(Debug, Clone, Copy, PartialEq, Eq, Structural)]
pub enum SearchLimit {
    /// To a depth.
    Depth { depth: u32 },
    /// A number of nodes.
    Nodes { nodes: u64 },
    /// A time per move.
    Time { move_time_ms: u64 },
    /// Until stopped.
    Infinite,
}

/// A score: centipawns, or a mate in some plies.
#[derive(Debug, Clone, Copy, PartialEq, Eq, Structural)]
pub enum Score {
    /// Centipawns.
    Cp { value: i32 },
    /// Mate in `plies`.
    Mate { plies: i32 },
}

/// A progress report of a search.
#[derive(Debug, Clone)]
pub struct SearchInfo {
    /// The search's id.
    pub id: String,
    /// Depth reached.
    pub depth: u32,
    /// Selective depth, if known.
    pub seldepth: Option<u32>,
    /// Nodes searched.
    pub nodes: u64,
    /// Nodes per second.
    pub nps: u64,
    /// Time spent, in milliseconds.
    pub time_ms: u64,
    /// The score.
    pub score: Score,
    /// The principal variation, in UCI notation.
    pub pv: Vec<String>,
    /// Table fill in permille, if known.
    pub hashfull: Option<u32>,
    /// Tablebase hits, if any.
    pub tb_hits: Option<u64>,
}

/// The result of a search: the best move and the move to ponder on.
#[derive(Debug, Clone)]
pub struct BestMove {
    /// The search's id.
    pub id: String,
    /// The best move, in UCI notation.
    pub best: String,
    /// The move to ponder on, if any.
    pub ponder: Option<String>,
}

} // verus!
