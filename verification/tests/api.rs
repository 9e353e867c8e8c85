use engine::types::{EngineOptions, SearchLimit, SearchInfo, Score};
use engine::EngineImpl;

#[test]
fn api_default_session() {
    let e = EngineImpl::default();
    assert_eq!(e.opts.hash_size_mb, 64);
    assert_eq!(e.opts.multi_pv, Some(1));
    assert_eq!(e.current_fen, "startpos");
}

#[test]
fn api_position_and_new_game() {
    let mut e = EngineImpl::default();
    e.position("8/8/8/8/8/8/8/K6k w - - 0 1", &[]);
    assert_eq!(e.current_fen, "8/8/8/8/8/8/8/K6k w - - 0 1");
    e.new_game();
    assert_eq!(e.current_fen, "startpos");
}

#[test]
fn api_analyze_reports_each_depth() {
    let opts = EngineOptions { hash_size_mb: 16, threads: 1, contempt: None, skill_level: None, multi_pv: None, use_tablebases: None };
    let mut e = EngineImpl::new_with(opts);
    let mut infos: Vec<SearchInfo> = Vec::new();
    let best = e.analyze(SearchLimit::Depth { depth: 3 }, |i| infos.push(i));
    assert_eq!(best.best, "e2e4");
    assert_eq!(best.ponder, Some("e7e5".to_string()));
    assert_eq!(infos.len(), 3);
    assert_eq!(infos[2].nodes, 6000);
    assert_eq!(infos[1].score, Score::Cp { value: 20 });
    assert_eq!(infos[0].hashfull, Some(10));
}

#[test]
fn api_analyze_default_depth() {
    let mut e = EngineImpl::default();
    let mut count = 0;
    let _ = e.analyze(SearchLimit::Infinite, |_| count += 1);
    assert_eq!(count, 6);
}
