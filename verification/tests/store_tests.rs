use commp::{CommPError, IndexedStore, MemStore, MultiStore};

fn el(b: u8) -> Vec<u8> {
    vec![b; 32]
}

#[test]
fn memstore_push_and_read() {
    let mut s = MemStore::new();
    assert_eq!(s.len(), 0);
    s.push(el(3));
    s.push(el(4));
    assert_eq!(s.len(), 2);
    assert_eq!(s.read_at(0), el(3));
    assert_eq!(s.read_at(1), el(4));
}

#[test]
fn multistore_partitions_at_threshold() {
    let mut s = MultiStore::with_threshold(2);
    let mut b: u8 = 0;
    while b < 5 {
        s.push(el(b));
        b += 1;
    }
    assert_eq!(s.len(), 5);
    assert_eq!(s.base.len(), 2);
    assert_eq!(s.overflow.len(), 3);
    let mut i: usize = 0;
    while i < 5 {
        assert_eq!(s.read_at(i), el(i as u8));
        i += 1;
    }
    assert!(!s.is_empty());
}

#[test]
fn multistore_read_range_spans_partition() {
    let mut s = MultiStore::with_threshold(3);
    let mut b: u8 = 0;
    while b < 8 {
        s.push(el(b));
        b += 1;
    }
    let r = s.read_range(1, 6).unwrap();
    assert_eq!(r.len(), 5);
    let mut k: usize = 0;
    while k < 5 {
        assert_eq!(r[k], el((k + 1) as u8));
        k += 1;
    }
    // ranges entirely within one region
    assert_eq!(s.read_range(0, 2).unwrap(), vec![el(0), el(1)]);
    assert_eq!(s.read_range(4, 6).unwrap(), vec![el(4), el(5)]);
    // empty and invalid ranges
    assert_eq!(s.read_range(2, 2).unwrap().len(), 0);
    assert_eq!(s.read_range(5, 3).unwrap_err(), CommPError::Storage);
    assert_eq!(s.read_range(0, 9).unwrap_err(), CommPError::Storage);
}

#[test]
fn multistore_write_at_both_regions() {
    let mut s = MultiStore::with_threshold(2);
    let mut b: u8 = 0;
    while b < 4 {
        s.push(el(b));
        b += 1;
    }
    s.write_at(el(9), 1).unwrap();
    s.write_at(el(8), 3).unwrap();
    assert_eq!(s.read_at(1), el(9));
    assert_eq!(s.read_at(3), el(8));
    assert_eq!(s.write_at(el(7), 4).unwrap_err(), CommPError::Storage);
}

#[test]
fn multistore_read_into() {
    let mut s = MultiStore::with_threshold(1);
    s.push(el(1));
    s.push(el(2));
    let mut buf: Vec<u8> = Vec::new();
    s.read_into(0, &mut buf).unwrap();
    assert_eq!(buf, el(1));
    s.read_into(1, &mut buf).unwrap();
    assert_eq!(buf, el(2));
    assert_eq!(s.read_into(2, &mut buf).unwrap_err(), CommPError::Storage);
}

#[test]
fn multistore_copy_from_slice() {
    let mut s = MultiStore::with_threshold(2);
    let mut b: u8 = 0;
    while b < 4 {
        s.push(el(b));
        b += 1;
    }
    // two elements starting at index 1, one per region side
    let mut image: Vec<u8> = Vec::new();
    image.extend_from_slice(&el(7));
    image.extend_from_slice(&el(6));
    s.copy_from_slice(&image, 1).unwrap();
    assert_eq!(s.read_at(0), el(0));
    assert_eq!(s.read_at(1), el(7));
    assert_eq!(s.read_at(2), el(6));
    assert_eq!(s.read_at(3), el(3));
    // a misaligned image and one past the end are refused whole
    assert_eq!(
        s.copy_from_slice(&vec![0u8; 33], 0).unwrap_err(),
        CommPError::Storage
    );
    assert_eq!(
        s.copy_from_slice(&vec![0u8; 64], 3).unwrap_err(),
        CommPError::Storage
    );
    assert_eq!(s.read_at(3), el(3));
}

#[test]
fn multistore_unsupported_operations() {
    let s = MultiStore::new();
    assert_eq!(
        MultiStore::new_from_slice(4, &vec![0u8; 128]).unwrap_err(),
        CommPError::UnsupportedOperation
    );
    assert_eq!(
        MultiStore::new_from_disk(4).unwrap_err(),
        CommPError::UnsupportedOperation
    );
    assert_eq!(
        s.read_range_into(0, 1).unwrap_err(),
        CommPError::UnsupportedOperation
    );
    assert!(!s.loaded_from_disk());
    assert!(s.is_empty());
}
