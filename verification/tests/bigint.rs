use bignum::bigint::BigInt;

#[test]
fn invariant_after_new() {
    assert!(BigInt::new(0).test_invariant());
    assert!(BigInt::new(1).test_invariant());
    assert!(BigInt::new(5).test_invariant());
    assert!(BigInt::new(u64::MAX).test_invariant());
}

#[test]
fn invariant_after_from_vec() {
    assert!(BigInt::from_vec(vec![]).test_invariant());
    assert!(BigInt::from_vec(vec![0, 0, 0]).test_invariant());
    assert!(BigInt::from_vec(vec![1, 2, 3, 4, 5, 0, 0, 0]).test_invariant());
    assert!(BigInt::from_vec(vec![0, 1]).test_invariant());
    assert!(BigInt::from_vec(vec![7]).test_invariant());
}

#[test]
fn new_zero_is_empty() {
    let z = BigInt::new(0);
    assert_eq!(z.data, Vec::<u64>::new());
}

#[test]
fn new_scalar_single_limb() {
    let b = BigInt::new(5);
    assert_eq!(b.data, vec![5]);
    assert_eq!(b.data[0], 5);
}

#[test]
fn zero_canonicalization() {
    let a = BigInt::from_vec(vec![]);
    let b = BigInt::from_vec(vec![0, 0, 0]);
    let c = BigInt::new(0);
    assert_eq!(a.data, Vec::<u64>::new());
    assert_eq!(b.data, Vec::<u64>::new());
    assert_eq!(a.data, c.data);
    assert_eq!(b.data, c.data);
}

#[test]
fn from_vec_trims_trailing_zeros() {
    let b = BigInt::from_vec(vec![1, 2, 3, 4, 5, 0, 0, 0]);
    assert_eq!(b.data, vec![1, 2, 3, 4, 5]);
    assert!(b.test_invariant());
    assert_eq!(b.min_limb(), Some(1));
    assert_eq!(b.max_limb(), Some(5));
}

#[test]
fn from_vec_keeps_interior_zeros() {
    let b = BigInt::from_vec(vec![0, 1]);
    assert_eq!(b.data, vec![0, 1]);
    let c = BigInt::from_vec(vec![0, 0, 3, 0]);
    assert_eq!(c.data, vec![0, 0, 3]);
}

#[test]
fn normalization_is_idempotent() {
    let once = BigInt::from_vec(vec![4, 9, 0]);
    let twice = BigInt::from_vec(once.data.clone());
    assert_eq!(once.data, vec![4, 9]);
    assert_eq!(twice.data, vec![4, 9]);
}

#[test]
fn normalized_input_unchanged() {
    let b = BigInt::from_vec(vec![1, 2, 3]);
    assert_eq!(b.data, vec![1, 2, 3]);
}

#[test]
fn clone_copies_limbs() {
    let x = BigInt::from_vec(vec![1, 2]);
    let y = x.clone();
    assert_eq!(y.data, vec![1, 2]);
}

#[test]
fn clone_is_independent() {
    let mut x = BigInt::from_vec(vec![1, 2]);
    let y = x.clone();
    x.data.push(7);
    x.data[0] = 99;
    assert_eq!(y.data, vec![1, 2]);
    let mut z = y.clone();
    z.data.clear();
    assert_eq!(y.data, vec![1, 2]);
}

#[test]
fn extremum_on_zero_value() {
    let z = BigInt::new(0);
    assert_eq!(z.min_limb(), None);
    assert_eq!(z.max_limb(), None);
    let e = BigInt::from_vec(vec![0, 0]);
    assert_eq!(e.min_limb(), None);
    assert_eq!(e.max_limb(), None);
}

#[test]
fn extremum_queries() {
    let b = BigInt::from_vec(vec![18, 5, 7, 3, 9, 27]);
    assert_eq!(b.min_limb(), Some(3));
    assert_eq!(b.max_limb(), Some(27));
    let single = BigInt::new(42);
    assert_eq!(single.min_limb(), Some(42));
    assert_eq!(single.max_limb(), Some(42));
    let ties = BigInt::from_vec(vec![7, 7]);
    assert_eq!(ties.min_limb(), Some(7));
    assert_eq!(ties.max_limb(), Some(7));
}

#[test]
fn extremum_with_zero_low_limb() {
    let b = BigInt::from_vec(vec![0, 3]);
    assert_eq!(b.min_limb(), Some(0));
    assert_eq!(b.max_limb(), Some(3));
}

#[test]
fn render_concatenates_limb_texts() {
    let b = BigInt::from_vec(vec![18, 5]);
    assert_eq!(b.to_text(), "185");
}

#[test]
fn render_zero_and_single() {
    assert_eq!(BigInt::new(0).to_text(), "");
    assert_eq!(BigInt::new(7).to_text(), "7");
    assert_eq!(BigInt::new(1234567890).to_text(), "1234567890");
    assert_eq!(BigInt::new(u64::MAX).to_text(), "18446744073709551615");
}

#[test]
fn render_keeps_storage_order() {
    let b = BigInt::from_vec(vec![1, 2, 3, 4, 5, 0, 0, 0]);
    assert_eq!(b.to_text(), "12345");
    let c = BigInt::from_vec(vec![0, 10, 200]);
    assert_eq!(c.to_text(), "010200");
}
