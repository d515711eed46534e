use craftcore::lazy_eq::LazyEq;

#[test]
fn lazy_eq_test_1() {
    let vec1: Vec<u64> = vec![1, 3, 2];
    let vec2: Vec<u64> = vec![3, 1, 2];
    assert!(vec1.lazy_eq(&vec2));
}

#[test]
fn lazy_ne_test_1() {
    let vec1: Vec<u64> = vec![1];
    let vec2: Vec<u64> = vec![3, 1, 2];
    assert!(vec1.lazy_ne(&vec2));
}

#[test]
fn lazy_ne_test_2() {
    let vec1: Vec<u64> = vec![8, 5, 13, 8];
    let vec2: Vec<u64> = vec![3, 1, 2];
    assert!(vec1.lazy_ne(&vec2));
}

#[test]
fn lazy_ne_test_3() {
    let vec1: Vec<u64> = vec![8, 5, 13];
    let vec2: Vec<u64> = vec![3, 1, 2];
    assert!(vec1.lazy_ne(&vec2));
}

#[test]
fn lazy_ne_test_4() {
    let vec1: Vec<u64> = vec![0, 0, 0];
    let vec2: Vec<u64> = vec![3, 1, 2];
    assert!(vec1.lazy_ne(&vec2));
}

#[test]
fn lazy_eq_ignores_duplicate_counts() {
    let vec1: Vec<u64> = vec![1, 1, 2];
    let vec2: Vec<u64> = vec![1, 2, 2];
    assert!(vec1.lazy_eq(&vec2));
}
