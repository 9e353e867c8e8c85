use engine::chess_move::{Move, MoveFlags};
use engine::square::Square;
use engine::tt::{Bound, TranspositionTable};

#[test]
fn test_tt_create() {
    let tt = TranspositionTable::new(1);
    assert!(tt.size() > 0);
    assert!(tt.size().is_power_of_two());
}

#[test]
fn test_tt_store_probe() {
    let mut tt = TranspositionTable::new(1);
    let hash = 0x1234_5678_9ABC_DEF0;
    let mv = Move::new(Square::E2(), Square::E4(), engine::chess_move::MoveFlags::QUIET);

    tt.store(hash, mv, 100, 5, Bound::Exact);

    let entry = tt.probe(hash);
    assert!(entry.is_some());
    let entry = entry.unwrap();
    assert_eq!(entry.score, 100);
    assert_eq!(entry.depth, 5);
    assert_eq!(entry.bound, Bound::Exact);
}

#[test]
fn test_tt_probe_miss() {
    let tt = TranspositionTable::new(1);
    let hash = 0x1234_5678_9ABC_DEF0;

    let entry = tt.probe(hash);
    assert!(entry.is_none());
}

#[test]
fn test_tt_replacement() {
    let mut tt = TranspositionTable::new(1);
    let hash = 0x1234_5678_9ABC_DEF0;
    let mv = Move::new(Square::E2(), Square::E4(), engine::chess_move::MoveFlags::QUIET);

    // Store shallow search
    tt.store(hash, mv, 50, 3, Bound::Lower);

    // Store deeper search (should replace)
    tt.store(hash, mv, 100, 5, Bound::Exact);

    let entry = tt.probe(hash).unwrap();
    assert_eq!(entry.depth, 5);
    assert_eq!(entry.score, 100);
}

#[test]
fn test_tt_clear() {
    let mut tt = TranspositionTable::new(1);
    let hash = 0x1234_5678_9ABC_DEF0;
    let mv = Move::new(Square::E2(), Square::E4(), engine::chess_move::MoveFlags::QUIET);

    tt.store(hash, mv, 100, 5, Bound::Exact);
    assert!(tt.probe(hash).is_some());

    tt.clear();
    assert!(tt.probe(hash).is_none());
}

#[test]
fn test_tt_hashfull() {
    let mut tt = TranspositionTable::new(1);
    let mv = Move::new(Square::E2(), Square::E4(), engine::chess_move::MoveFlags::QUIET);

    // Initially empty
    assert_eq!(tt.hashfull(), 0);

    // Fill some entries
    for i in 0..100 {
        tt.store(i as u64, mv, 0, 1, Bound::Exact);
    }

    // Should have some fill
    assert!(tt.hashfull() > 0);
}
