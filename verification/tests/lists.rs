use taggenator::lists::dedup;

#[test]
fn lists_basic() {
    let mut a = vec!["A", "A", "C", "D", "E", "A"];
    dedup(&mut a);
    assert_eq!(a, vec!["C", "D", "E", "A"]);
}

#[test]
fn dedup_keeps_last_of_each() {
    let mut a: Vec<u64> = vec![3, 1, 3, 2, 1];
    dedup(&mut a);
    assert_eq!(a, vec![3, 2, 1]);
}

#[test]
fn dedup_twice_is_once() {
    let mut a = vec!["x".to_string(), "y".to_string(), "x".to_string()];
    dedup(&mut a);
    let once = a.clone();
    dedup(&mut a);
    assert_eq!(a, once);
    assert_eq!(a, vec!["y".to_string(), "x".to_string()]);
}

#[test]
fn dedup_empty() {
    let mut a: Vec<u64> = vec![];
    dedup(&mut a);
    assert!(a.is_empty());
}
