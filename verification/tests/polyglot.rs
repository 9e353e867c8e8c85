use engine::polyglot::BookEntry;

#[test]
fn test_entry_decode() {
    // Test move decoding: e2e4 would be encoded as:
    // from: e2 = file 4, rank 1 (0-indexed)
    // to: e4 = file 4, rank 3
    // move_data = (file_to) | (rank_to << 3) | (file_from << 6) | (rank_from << 9) | (promo << 12)
    // = 4 | (3 << 3) | (4 << 6) | (1 << 9) | (0 << 12)
    // = 4 | 24 | 256 | 512 | 0 = 796
    let bytes = [
        0, 0, 0, 0, 0, 0, 0, 0, // key (doesn't matter for this test)
        0x03, 0x1c, // move_data = 796 in big-endian
        0, 100, // weight
        0, 0, 0, 0, // learn
    ];

    let entry = BookEntry::from_bytes(&bytes);
    let (from, to, promo) = entry.decode_move();

    assert_eq!(from.file(), 4); // e-file
    assert_eq!(from.rank(), 1); // 2nd rank (0-indexed)
    assert_eq!(to.file(), 4);   // e-file
    assert_eq!(to.rank(), 3);   // 4th rank (0-indexed)
    assert_eq!(promo, None);
}
