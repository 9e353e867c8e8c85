use engine::chess_move::{Move, MoveFlags};
use engine::movelist::MoveList;
use engine::square::Square;

#[test]
fn movelist_new() {
    let list = MoveList::new();
    assert_eq!(list.len(), 0);
    assert!(list.is_empty());
}

#[test]
fn movelist_push() {
    let mut list = MoveList::new();
    let m1 = Move::new(Square::E2(), Square::E4(), MoveFlags::QUIET);
    let m2 = Move::new(Square::D2(), Square::D4(), MoveFlags::DOUBLE_PAWN_PUSH);

    list.push(m1);
    assert_eq!(list.len(), 1);
    assert_eq!(list.get(0), m1);

    list.push(m2);
    assert_eq!(list.len(), 2);
    assert_eq!(list.get(1), m2);
}

#[test]
fn movelist_clear() {
    let mut list = MoveList::new();
    list.push(Move::new(Square::E2(), Square::E4(), MoveFlags::QUIET));
    list.push(Move::new(Square::D2(), Square::D4(), MoveFlags::QUIET));
    assert_eq!(list.len(), 2);

    list.clear();
    assert_eq!(list.len(), 0);
    assert!(list.is_empty());
}

#[test]
fn movelist_iter() {
    let mut list = MoveList::new();
    let moves = [
        Move::new(Square::E2(), Square::E4(), MoveFlags::QUIET),
        Move::new(Square::D2(), Square::D4(), MoveFlags::QUIET),
        Move::new(Square::E7(), Square::E5(), MoveFlags::QUIET),
    ];

    for &m in &moves {
        list.push(m);
    }

    let collected: Vec<_> = list.iter().copied().collect();
    assert_eq!(collected, moves);
}

#[test]
fn movelist_into_iter() {
    let mut list = MoveList::new();
    let moves = [
        Move::new(Square::E2(), Square::E4(), MoveFlags::QUIET),
        Move::new(Square::D2(), Square::D4(), MoveFlags::QUIET),
    ];

    for &m in &moves {
        list.push(m);
    }

    let mut it = list.into_iter();
    let mut collected: Vec<Move> = Vec::new();
    while let Some(m) = it.next() {
        collected.push(m);
    }
    assert_eq!(collected, moves);
}

#[test]
fn movelist_swap() {
    let mut list = MoveList::new();
    let m1 = Move::new(Square::E2(), Square::E4(), MoveFlags::QUIET);
    let m2 = Move::new(Square::D2(), Square::D4(), MoveFlags::QUIET);

    list.push(m1);
    list.push(m2);

    list.swap(0, 1);
    assert_eq!(list.get(0), m2);
    assert_eq!(list.get(1), m1);
}

#[test]
fn movelist_sort() {
    let mut list = MoveList::new();
    list.push(Move::new(Square::H8(), Square::H7(), MoveFlags::QUIET));
    list.push(Move::new(Square::A1(), Square::A2(), MoveFlags::QUIET));
    list.push(Move::new(Square::E4(), Square::E5(), MoveFlags::QUIET));

    list.sort_by_key(|m| m.from().index() as i32);

    assert_eq!(list.get(0).from(), Square::A1());
    assert_eq!(list.get(1).from(), Square::E4());
    assert_eq!(list.get(2).from(), Square::H8());
}

#[test]
fn movelist_size() {
    // MoveList should be reasonably sized
    let size = std::mem::size_of::<MoveList>();
    // MAX_MOVES * 2 bytes (Move) + 8 bytes (len) = 520 bytes
    assert!(size <= 1024, "MoveList is too large: {} bytes", size);
}

