use commp::size::{padded_size, piece_size};

#[test]
fn piece_size_values() {
    assert_eq!(piece_size(0, false), 1);
    assert_eq!(piece_size(1, false), 2);
    assert_eq!(piece_size(5, false), 8);
    assert_eq!(piece_size(5, true), 16);
    assert_eq!(piece_size(2074570, false), 2097152);
}

#[test]
fn padded_size_fixture_scenario() {
    // the known archive fixture: 2,074,570 declared bytes pad to 2,080,768,
    // and the stuffed stream over that padded input is 2,097,152 bytes
    let padded = padded_size(2074570);
    assert_eq!(padded, 2080768);
    assert_eq!(padded + padded / 127, 2097152);
}

#[test]
fn padded_size_boundaries() {
    // at a sector's capacity the size is kept; one past it escalates
    assert_eq!(padded_size(127), 127);
    assert_eq!(padded_size(128), 254);
    assert_eq!(padded_size(2080768), 2080768); // 127 * 2^14
    assert_eq!(padded_size(2080769), 4161536); // 127 * 2^15
}

#[test]
fn padded_size_small_and_large() {
    assert_eq!(padded_size(1), 2);
    assert_eq!(padded_size(63), 64);
    assert_eq!(padded_size(64), 127);
    // the largest accepted size is the capacity of the top sector
    assert_eq!(padded_size(9151314442816847872), 9151314442816847872);
}

#[test]
fn padded_size_monotone_and_covering() {
    let mut prev = padded_size(1);
    let mut s: u64 = 2;
    while s <= 2000 {
        let p = padded_size(s);
        assert!(p >= prev);
        assert!(p >= s);
        prev = p;
        s += 1;
    }
}
