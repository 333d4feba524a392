use reo_rs::bitset::BitSet;

#[test]
fn bitset_set_then_test() {
    let mut b = BitSet::from_set_iter(vec![3, 70]);
    assert!(b.test(3));
    assert!(b.test(70));
    assert!(!b.test(4));
    assert_eq!(b.data.len(), 2);
    let was = b.set_to(4, true);
    assert!(!was);
    assert!(b.test(4));
    let was = b.set_to(3, false);
    assert!(was);
    assert!(!b.test(3));
    // clearing a bit past the end changes nothing
    b.set_to(1000, false);
    assert_eq!(b.data.len(), 2);
    // setting one past the end grows the set
    b.set_to(200, true);
    assert_eq!(b.data.len(), 4);
    assert!(b.test(200));
}

#[test]
fn bitset_strip_and_pad_keep_bits() {
    let mut b = BitSet::from_chunks(vec![5, 0, 0]);
    b.strip_trailing_zeroes();
    assert_eq!(b.data, vec![5]);
    b.pad_trailing_zeroes(4);
    assert_eq!(b.data, vec![5, 0, 0, 0]);
    assert!(b.test(0) && b.test(2) && !b.test(1));
    b.strip_trailing_zeroes();
    assert_eq!(b.data, vec![5]);
}

#[test]
fn bitset_superset_and_intersect() {
    let a = BitSet::from_chunks(vec![0b111, 0b1]);
    let b = BitSet::from_chunks(vec![0b101]);
    let c = BitSet::from_chunks(vec![0b1000]);
    assert!(a.is_superset(&b));
    assert!(!b.is_superset(&a));
    assert!(!a.is_superset(&c));
    assert!(a.intersects_with(&b));
    assert!(!b.intersects_with(&c));
}

#[test]
fn bitset_capacity_and_len() {
    assert_eq!(BitSet::len_needed_for_capacity(0), 0);
    assert_eq!(BitSet::len_needed_for_capacity(1), 1);
    assert_eq!(BitSet::len_needed_for_capacity(64), 1);
    assert_eq!(BitSet::len_needed_for_capacity(65), 2);
    let b = BitSet::with_capacity(130);
    assert_eq!(b.data, vec![0, 0, 0]);
    assert!(b.is_empty());
    assert!(b.capacity() >= 192);
}

#[test]
fn bitset_or_and_difference() {
    let mut a = BitSet::from_chunks(vec![0b0011]);
    let b = BitSet::from_chunks(vec![0b0110, 0b1]);
    a.or_with(&b);
    // the common prefix is or-ed, then all of the longer set is appended
    assert_eq!(a.data, vec![0b0111, 0b0110, 0b1]);
    let mut d = BitSet::from_chunks(vec![0b0111, 0b1]);
    d.difference_with(&BitSet::from_chunks(vec![0b0101]));
    assert_eq!(d.data, vec![0b0010, 0b1]);
}

#[test]
fn bitset_sparse_iteration() {
    let b = BitSet::from_set_iter(vec![1, 5, 64]);
    let mut it = b.iter_sparse();
    let mut got = Vec::new();
    while let Some(i) = it.next() {
        got.push(i);
    }
    assert_eq!(got, vec![1, 5, 64]);
}
