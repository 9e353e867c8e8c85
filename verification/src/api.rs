//! The engine's interface: options, position and analysis with progress
//! reports.
use vstd::prelude::*;
use crate::text::push_str;
use crate::types::{BestMove, EngineOptions, Score, SearchInfo, SearchLimit};

verus! {

/// The engine session state.
pub struct EngineImpl {
    /// The options.
    pub opts: EngineOptions,
    /// The current position, as FEN (or `startpos`).
    pub current_fen: String,
    stopped: bool,
}

/// The depth an analysis reaches: the limit's depth, else 6.
pub open spec fn analysis_depth(limit: SearchLimit) -> int {
    match limit {
        SearchLimit::Depth { depth } => depth as int,
        _ => 6,
    }
}

/// Whether the reports of an analysis to `d` stay within their types.
pub open spec fn analysis_fits(d: int) -> bool {
    &&& d * 10 <= i32::MAX
    &&& 500 * d * (d + 1) <= u64::MAX
}

/// A string holding a literal.
fn string_from(s: &str) -> (r: String)
    ensures
        r@ == s@,
{
    let mut r = String::new();
    push_str(&mut r, s);
    r
}

/// The depths the analysis server reports, from 1 up.
pub const REPORTED_DEPTHS: u32 = 6;

/// The analysis server's progress report for analysis `id` at `depth`:
/// 10,000 nodes and 80 ms per depth at a million nodes a second, 12
/// centipawns per depth, the main line e2e4 e7e5, one more ply of
/// selective depth and 20 per mille of the hash table per depth.
pub fn progress_report(id: &str, depth: u32) -> (r: SearchInfo)
    requires
        depth as int * 20 <= u32::MAX,
        depth as int * 12 <= i32::MAX,
    ensures
        r.id@ == id@,
        r.depth == depth,
        r.seldepth == Some((depth + 1) as u32),
        r.nodes == depth as int * 10_000,
        r.nps == 1_000_000,
        r.time_ms == depth as int * 80,
        r.score == (Score::Cp { value: (depth * 12) as i32 }),
        r.pv@.len() == 2 && r.pv@[0]@ == "e2e4"@ && r.pv@[1]@ == "e7e5"@,
        r.hashfull == Some((20 * depth) as u32),
        r.tb_hits is None,
{
    let mut pv: Vec<String> = Vec::new();
    pv.push(string_from("e2e4"));
    pv.push(string_from("e7e5"));
    SearchInfo {
        id: string_from(id),
        depth,
        seldepth: Some(depth + 1),
        nodes: depth as u64 * 10_000,
        nps: 1_000_000,
        time_ms: depth as u64 * 80,
        score: Score::Cp { value: depth as i32 * 12 },
        pv,
        hashfull: Some(20 * depth),
        tb_hits: None,
    }
}

/// The analysis server's final answer for analysis `id`: e2e4, pondering
/// on e7e5.
pub fn final_report(id: &str) -> (r: BestMove)
    ensures
        r.id@ == id@,
        r.best@ == "e2e4"@,
        r.ponder matches Some(p) && p@ == "e7e5"@,
{
    BestMove { id: string_from(id), best: string_from("e2e4"), ponder: Some(string_from("e7e5")) }
}

impl Default for EngineImpl {
    fn default() -> (r: EngineImpl)
        ensures
            r.options().hash_size_mb == 64 && r.options().threads == 1 && r.options().contempt is None
                && r.options().skill_level is None && r.options().multi_pv == Some(1u32) && r.options().use_tablebases is None,
            r.fen() == "startpos"@,
            !r.is_stopped(),
    {
        EngineImpl {
            opts: EngineOptions {
                hash_size_mb: 64,
                threads: 1,
                contempt: None,
                skill_level: None,
                multi_pv: Some(1),
                use_tablebases: None,
            },
            current_fen: string_from("startpos"),
            stopped: false,
        }
    }
}

impl EngineImpl {
    /// Whether a stop was requested.
    pub closed spec fn is_stopped(&self) -> bool {
        self.stopped
    }

    /// The options.
    pub closed spec fn options(&self) -> EngineOptions {
        self.opts
    }

    /// The current position text.
    pub closed spec fn fen(&self) -> Seq<char> {
        self.current_fen@
    }

    /// A session with the given options at the start position.
    pub fn new_with(opts: EngineOptions) -> (r: EngineImpl)
        ensures
            r.options() == opts,
            r.fen() == "startpos"@,
            !r.is_stopped(),
    {
        EngineImpl { opts, current_fen: string_from("startpos"), stopped: false }
    }

    /// A new game: back to the start position, not stopped.
    pub fn new_game(&mut self)
        ensures
            final(self).fen() == "startpos"@,
            !final(self).is_stopped(),
            final(self).options() == old(self).options(),
    {
        self.current_fen = string_from("startpos");
        self.stopped = false;
    }

    /// Set the position (the moves are not applied).
    pub fn position(&mut self, fen: &str, moves: &[String])
        ensures
            final(self).fen() == fen@,
            final(self).options() == old(self).options(),
            final(self).is_stopped() == old(self).is_stopped(),
    {
        self.current_fen = string_from(fen);
    }

    /// Set an option (options are not read yet: nothing changes).
    pub fn set_option(&mut self, key: &str, value: &str)
        ensures
            *final(self) == *old(self),
    {
    }

    /// Analyse to the limit's depth (6 for other limits), reporting each
    /// depth to `info_sink` unless a stop was requested, and answer the
    /// best move and the move to ponder on.
    pub fn analyze<F: FnMut(SearchInfo)>(&mut self, limit: SearchLimit, info_sink: F) -> (r: BestMove)
        requires
            analysis_fits(analysis_depth(limit)),
            forall|i: SearchInfo| #[trigger] info_sink.requires((i,)),
        ensures
            r.id@ == "scaffold"@,
            r.best@ == "e2e4"@,
            r.ponder matches Some(p) && p@ == "e7e5"@,
            !final(self).is_stopped(),
            final(self).options() == old(self).options(),
    {
        let mut sink = info_sink;
        self.stopped = false;
        let max_depth: u32 = match limit {
            SearchLimit::Depth { depth } => depth,
            _ => 6,
        };
        let mut nodes: u64 = 0;
        let mut depth: u32 = 1;
        while depth <= max_depth
            invariant
                1 <= depth <= max_depth + 1,
                max_depth == analysis_depth(limit),
                analysis_fits(max_depth as int),
                nodes == 500 * (depth - 1) * depth,
                !self.stopped,
                self.opts == old(self).opts,
                forall|i: SearchInfo| #[trigger] sink.requires((i,)),
            decreases max_depth + 1 - depth,
        {
            if self.stopped {
                break;
            }
            assert(500 * depth * (depth + 1) <= 500 * max_depth * (max_depth + 1)) by (nonlinear_arith)
                requires
                    1 <= depth <= max_depth;
            assert(500 * (depth - 1) * depth + 1000 * depth == 500 * depth * (depth + 1)) by (nonlinear_arith);
            nodes = nodes + (depth as u64) * 1000;
            let mut pv: Vec<String> = Vec::new();
            pv.push(string_from("e2e4"));
            pv.push(string_from("e7e5"));
            let info = SearchInfo {
                id: string_from("scaffold"),
                depth,
                seldepth: Some(depth + 2),
                nodes,
                nps: 1200000,
                time_ms: depth as u64 * 50,
                score: Score::Cp { value: depth as i32 * 10 },
                pv,
                hashfull: Some(10 * depth),
                tb_hits: None,
            };
            sink(info);
            depth += 1;
        }
        BestMove { id: string_from("scaffold"), best: string_from("e2e4"), ponder: Some(string_from("e7e5")) }
    }

    /// Request a stop.
    pub fn stop(&mut self)
        ensures
            final(self).is_stopped(),
            final(self).options() == old(self).options(),
            final(self).fen() == old(self).fen(),
    {
        self.stopped = true;
    }
}

} // verus!
