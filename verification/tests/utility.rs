use eatmud::utility::{search_sorted, SIDE};

#[test]
fn test_search_sorted() {
    let a: Vec<i64> = vec![2, 4, 6, 8, 10, 12, 14, 16];
    let idx1 = search_sorted(&a, 9, None);
    let idx2 = search_sorted(&a, 9, Some(SIDE::RIGHT));
    let idx3 = search_sorted(&a, 8, None);
    let idx4 = search_sorted(&a, 8, Some(SIDE::RIGHT));
    let idx5 = search_sorted(&a, 0, None);
    let idx6 = search_sorted(&a, 0, Some(SIDE::RIGHT));
    let idx7 = search_sorted(&a, 20, None);
    let idx8 = search_sorted(&a, 20, Some(SIDE::RIGHT));
    assert!(idx1 == 4);
    assert!(idx2 == 4);
    assert!(idx3 == 3);
    assert!(idx4 == 4);
    assert!(idx5 == 0);
    assert!(idx6 == 0);
    assert!(idx7 == 8);
    assert!(idx8 == 8);
}

#[test]
fn test_search_sorted_bracketing() {
    // the bracketing inequalities on both sides of a run of equal keys
    let a: Vec<i64> = vec![1, 3, 3, 3, 7];
    let left = search_sorted(&a, 3, None);
    let right = search_sorted(&a, 3, Some(SIDE::RIGHT));
    assert_eq!(left, 1);
    assert_eq!(right, 4);
    assert!(a[left - 1] < 3 && 3 <= a[left]);
    assert!(a[right - 1] <= 3 && 3 < a[right]);
}

#[test]
fn test_search_sorted_empty() {
    let a: Vec<i64> = Vec::new();
    assert_eq!(search_sorted(&a, 5, None), 0);
    assert_eq!(search_sorted(&a, 5, Some(SIDE::RIGHT)), 0);
}
