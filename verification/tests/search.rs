use async_basics::search::{find_max, larger};

#[test]
fn find_max_finds_the_greatest() {
    assert_eq!(find_max(&[1, 25, -4, 10]), Some(25));
    assert_eq!(find_max(&[7]), Some(7));
    assert_eq!(find_max(&[3, 3, 3]), Some(3));
    assert_eq!(find_max(&[-5, -2, -9]), Some(-2));
    assert_eq!(find_max(&[i32::MIN]), Some(i32::MIN));
    assert_eq!(find_max(&[i32::MIN, i32::MAX, 0]), Some(i32::MAX));
    assert_eq!(find_max(&[9, 1]), Some(9));
    assert_eq!(find_max(&[1, 9]), Some(9));
    assert_eq!(find_max(&[1, 2, 3, 4, 5, 6, 7]), Some(7));
    assert_eq!(find_max(&[7, 6, 5, 4, 3, 2, 1]), Some(7));
}

#[test]
fn find_max_of_nothing_is_nothing() {
    assert_eq!(find_max(&[]), None);
}

#[test]
fn find_max_agrees_with_the_iterator() {
    let mut seed: u64 = 99;
    let mut v: Vec<i32> = Vec::new();
    for n in 0..60 {
        assert_eq!(find_max(&v), v.iter().cloned().max(), "length {}", n);
        seed = seed.wrapping_mul(6364136223846793005).wrapping_add(1442695040888963407);
        v.push((seed >> 40) as i32 - 8_000_000);
    }
}

#[test]
fn larger_joins_two_results() {
    assert_eq!(larger(None, None), None);
    assert_eq!(larger(Some(3), None), Some(3));
    assert_eq!(larger(None, Some(-3)), Some(-3));
    assert_eq!(larger(Some(3), Some(4)), Some(4));
    assert_eq!(larger(Some(4), Some(3)), Some(4));
    assert_eq!(larger(Some(4), Some(4)), Some(4));
    assert_eq!(larger(Some(i32::MIN), None), Some(i32::MIN));
}
