use engine::chess_move::{Move, MoveFlags};
use engine::piece::PieceType;
use engine::search::history::{CountermoveTable, ContinuationHistory, CaptureHistory};
use engine::square::Square;

#[test]
fn test_countermove_basic() {
    let mut cm = CountermoveTable::new();

    let prev = Move::new(Square::E2(), Square::E4(), MoveFlags::QUIET);
    let counter = Move::new(Square::E7(), Square::E5(), MoveFlags::QUIET);

    // Initially no countermove
    assert_eq!(cm.get(prev), None);

    // Store countermove
    cm.store(prev, counter);
    assert_eq!(cm.get(prev), Some(counter));

    // Different move should have no countermove
    let other = Move::new(Square::D2(), Square::D4(), MoveFlags::QUIET);
    assert_eq!(cm.get(other), None);
}

#[test]
fn test_countermove_overwrite() {
    let mut cm = CountermoveTable::new();

    let prev = Move::new(Square::E2(), Square::E4(), MoveFlags::QUIET);
    let counter1 = Move::new(Square::E7(), Square::E5(), MoveFlags::QUIET);
    let counter2 = Move::new(Square::D7(), Square::D5(), MoveFlags::QUIET);

    cm.store(prev, counter1);
    assert_eq!(cm.get(prev), Some(counter1));

    // Overwrite with new countermove
    cm.store(prev, counter2);
    assert_eq!(cm.get(prev), Some(counter2));
}

#[test]
fn test_countermove_clear() {
    let mut cm = CountermoveTable::new();

    let prev = Move::new(Square::E2(), Square::E4(), MoveFlags::QUIET);
    let counter = Move::new(Square::E7(), Square::E5(), MoveFlags::QUIET);

    cm.store(prev, counter);
    assert_eq!(cm.get(prev), Some(counter));

    cm.clear();
    assert_eq!(cm.get(prev), None);
}

#[test]
fn test_continuation_history_basic() {
    let mut ch = ContinuationHistory::new();

    let prev = Move::new(Square::E2(), Square::E4(), MoveFlags::QUIET);
    let current = Move::new(Square::E7(), Square::E5(), MoveFlags::QUIET);

    // Initially 0
    assert_eq!(ch.get(prev, current), 0);

    // Update with depth 3: bonus = 9
    ch.update(prev, current, 3);
    assert_eq!(ch.get(prev, current), 9);

    // Update again with depth 5: bonus = 25
    ch.update(prev, current, 5);
    assert_eq!(ch.get(prev, current), 34);
}

#[test]
fn test_continuation_history_different_pairs() {
    let mut ch = ContinuationHistory::new();

    let prev1 = Move::new(Square::E2(), Square::E4(), MoveFlags::QUIET);
    let prev2 = Move::new(Square::D2(), Square::D4(), MoveFlags::QUIET);
    let current = Move::new(Square::E7(), Square::E5(), MoveFlags::QUIET);

    ch.update(prev1, current, 5);
    ch.update(prev2, current, 3);

    // Different previous moves should have different scores
    assert_eq!(ch.get(prev1, current), 25);
    assert_eq!(ch.get(prev2, current), 9);
}

#[test]
fn test_continuation_history_saturation() {
    let mut ch = ContinuationHistory::new();

    let prev = Move::new(Square::E2(), Square::E4(), MoveFlags::QUIET);
    let current = Move::new(Square::E7(), Square::E5(), MoveFlags::QUIET);

    // Update many times to test saturation
    for _ in 0..100 {
        ch.update(prev, current, 20); // bonus = 400 each time
    }

    let score = ch.get(prev, current);
    assert!(
        score <= 16000,
        "Score should be capped at 16000, got {}",
        score
    );
    assert!(score > 0, "Score should be positive");
}

#[test]
fn test_capture_history_basic() {
    let mut ch = CaptureHistory::new();

    let capture = Move::new(Square::E4(), Square::D5(), MoveFlags::CAPTURE);
    let captured = PieceType::Pawn;

    // Initially 0
    assert_eq!(ch.get(capture, captured), 0);

    // Update with depth 4: bonus = 16
    ch.update(capture, captured, 4);
    assert_eq!(ch.get(capture, captured), 16);

    // Update again with depth 6: bonus = 36
    ch.update(capture, captured, 6);
    assert_eq!(ch.get(capture, captured), 52);
}

#[test]
fn test_capture_history_different_pieces() {
    let mut ch = CaptureHistory::new();

    let capture = Move::new(Square::E4(), Square::D5(), MoveFlags::CAPTURE);

    ch.update(capture, PieceType::Pawn, 5);
    ch.update(capture, PieceType::Knight, 3);

    // Different captured pieces should have different scores
    assert_eq!(ch.get(capture, PieceType::Pawn), 25);
    assert_eq!(ch.get(capture, PieceType::Knight), 9);
    assert_eq!(ch.get(capture, PieceType::Bishop), 0);
}

#[test]
fn test_capture_history_saturation() {
    let mut ch = CaptureHistory::new();

    let capture = Move::new(Square::E4(), Square::D5(), MoveFlags::CAPTURE);
    let captured = PieceType::Queen;

    // Update many times
    for _ in 0..100 {
        ch.update(capture, captured, 20); // bonus = 400 each time
    }

    let score = ch.get(capture, captured);
    assert!(
        score <= 16000,
        "Score should be capped at 16000, got {}",
        score
    );
    assert!(score > 0, "Score should be positive");
}

#[test]
fn test_capture_history_different_squares() {
    let mut ch = CaptureHistory::new();

    let cap1 = Move::new(Square::E4(), Square::D5(), MoveFlags::CAPTURE);
    let cap2 = Move::new(Square::from_coords(2, 2), Square::D5(), MoveFlags::CAPTURE); // c3

    ch.update(cap1, PieceType::Pawn, 5);
    ch.update(cap2, PieceType::Pawn, 3);

    // Same captured piece but different squares should be tracked separately
    assert_eq!(ch.get(cap1, PieceType::Pawn), 25);
    assert_eq!(ch.get(cap2, PieceType::Pawn), 9);
}

#[test]
fn test_all_clear() {
    let mut cm = CountermoveTable::new();
    let mut ch = ContinuationHistory::new();
    let mut cap_hist = CaptureHistory::new();

    let mv1 = Move::new(Square::E2(), Square::E4(), MoveFlags::QUIET);
    let mv2 = Move::new(Square::E7(), Square::E5(), MoveFlags::QUIET);

    cm.store(mv1, mv2);
    ch.update(mv1, mv2, 5);
    cap_hist.update(mv1, PieceType::Pawn, 5);

    // Clear all
    cm.clear();
    ch.clear();
    cap_hist.clear();

    // Everything should be reset
    assert_eq!(cm.get(mv1), None);
    assert_eq!(ch.get(mv1, mv2), 0);
    assert_eq!(cap_hist.get(mv1, PieceType::Pawn), 0);
}

#[test]
fn test_continuation_history_clear() {
    let mut ch = ContinuationHistory::new();

    let prev = Move::new(Square::E2(), Square::E4(), MoveFlags::QUIET);
    let current = Move::new(Square::E7(), Square::E5(), MoveFlags::QUIET);

    ch.update(prev, current, 10);
    assert!(ch.get(prev, current) > 0);

    ch.clear();
    assert_eq!(ch.get(prev, current), 0);
}

#[test]
fn test_capture_history_clear() {
    let mut ch = CaptureHistory::new();

    let capture = Move::new(Square::E4(), Square::D5(), MoveFlags::CAPTURE);

    ch.update(capture, PieceType::Pawn, 10);
    assert!(ch.get(capture, PieceType::Pawn) > 0);

    ch.clear();
    assert_eq!(ch.get(capture, PieceType::Pawn), 0);
}
