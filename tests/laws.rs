use iter_extra::prelude::{Deltas, DeltasBy, DeltasByKey};
use iter_extra::IterExtra;

#[test]
fn deltas_output_as_long_as_input() {
    for n in 0..6usize {
        let items: Vec<u8> = (0..n).map(|i| (i % 3) as u8).collect();
        assert_eq!(Deltas::new(items.clone()).collect_vec().len(), n);
        assert_eq!(DeltasBy::new(items.clone(), |a: &u8, b: &u8| a.cmp(b)).collect_vec().len(), n);
        assert_eq!(DeltasByKey::new(items, |a: &u8| *a % 2).collect_vec().len(), n);
    }
}

#[test]
fn first_occurrence_gets_its_position() {
    let d = vec!['x', 'y', 'x', 'z', 'w'].deltas().collect_vec();
    assert_eq!(d[1], 1);
    assert_eq!(d[3], 3);
    assert_eq!(d[4], 4);
}

#[test]
fn adjacent_repeat_gets_zero() {
    let d = vec![5u32, 9, 9, 5, 5].deltas().collect_vec();
    assert_eq!(d[2], 0);
    assert_eq!(d[4], 0);
    let d = vec![-4i32, 4].deltas_by(|a, b| a.abs().cmp(&b.abs())).collect_vec();
    assert_eq!(d, vec![0, 0]);
}

#[test]
fn deltas_stay_below_length() {
    let items = vec![3u8, 1, 4, 1, 5, 9, 2, 6, 5, 3, 5];
    let d = items.clone().deltas().collect_vec();
    for (i, v) in d.iter().enumerate() {
        assert!(*v <= i);
        assert!(*v < items.len());
    }
    // 1 at position 3 repeats the 1 at position 1
    assert!(d[3] < 3);
}

#[test]
fn identity_key_matches_native_equality() {
    let items = vec![1, 1, 2, 2, 3, 3, 2, 3, 4];
    let by_eq = items.clone().deltas().collect_vec();
    let by_key = items.deltas_by_key(|x: &i32| *x).collect_vec();
    assert_eq!(by_eq, by_key);
}

#[test]
fn scenario_numbers() {
    let d = vec![1, 1, 2, 2, 3, 3, 2, 3, 4].deltas().collect_vec();
    assert_eq!(d, vec![0, 0, 2, 0, 4, 0, 2, 1, 8]);
}

#[test]
fn scenario_chars() {
    let d = vec!['a', 'b', 'c', 'a', 'c'].deltas().collect_vec();
    assert_eq!(d, vec![0, 1, 2, 2, 1]);
}

#[test]
fn scenario_key_modulo() {
    let d = vec![1u32, 11, 2, 22, 1, 33].deltas_by_key(|x: &u32| *x % 10).collect_vec();
    assert_eq!(d, vec![0, 0, 2, 0, 2, 5]);
}

#[test]
fn floor_comparator() {
    let d = vec![1.1f64, 2.2, 3.3, 1.2, 2.1]
        .deltas_by(|a: &f64, b: &f64| a.floor().total_cmp(&b.floor()))
        .collect_vec();
    assert_eq!(d, vec![0, 1, 2, 2, 2]);
}

#[test]
fn first_character_key() {
    let d = vec!["apple", "banana", "apricot", "blueberry"]
        .deltas_by_key(|s: &&str| s.chars().next())
        .collect_vec();
    assert_eq!(d, vec![0, 1, 1, 1]);
}

#[test]
fn next_steps_then_ends() {
    let mut d = vec![7u8, 8, 7].deltas();
    assert_eq!(d.next(), Some(0));
    assert_eq!(d.next(), Some(1));
    assert_eq!(d.next(), Some(1));
    assert_eq!(d.next(), None);
    assert_eq!(d.next(), None);
}

#[test]
fn next_by_steps_then_ends() {
    let mut d = vec![2u8, 3].deltas_by(|a: &u8, b: &u8| a.cmp(b));
    assert_eq!(d.next(), Some(0));
    assert_eq!(d.next(), Some(1));
    assert_eq!(d.next(), None);
    let mut k = vec![20u8, 30].deltas_by_key(|a: &u8| *a / 100);
    assert_eq!(k.next(), Some(0));
    assert_eq!(k.next(), Some(0));
    assert_eq!(k.next(), None);
}

#[test]
fn extremum_empty_is_absent() {
    let empty: Vec<f64> = vec![];
    assert_eq!(empty.clone().min_by_partial_key(|x: &f64| *x), None);
    assert_eq!(empty.max_by_partial_key(|x: &f64| *x), None);
}

#[test]
fn extremum_single_is_that_element() {
    assert_eq!(vec![7u32].min_by_partial_key(|x: &u32| *x), Some(7));
    assert_eq!(vec![7u32].max_by_partial_key(|x: &u32| *x), Some(7));
    assert!(vec![f64::NAN].min_by_partial_key(|x: &f64| *x).unwrap().is_nan());
}

#[test]
fn extremum_with_nan() {
    let v = vec![1.0f64, f64::NAN, 2.0, 0.5];
    assert_eq!(v.clone().min_by_partial_key(|x: &f64| *x), Some(0.5));
    assert_eq!(v.max_by_partial_key(|x: &f64| *x), Some(2.0));
}

#[test]
fn extremum_ties() {
    // the first of equal least keys, the last of equal greatest keys
    let v = vec![(1u8, 'a'), (0, 'b'), (0, 'c'), (1, 'd')];
    assert_eq!(v.clone().min_by_partial_key(|p: &(u8, char)| p.0), Some((0, 'b')));
    assert_eq!(v.max_by_partial_key(|p: &(u8, char)| p.0), Some((1, 'd')));
}

#[test]
fn collect_some_vec_cases() {
    assert_eq!(Vec::<u8>::new().collect_some_vec(), None);
    assert_eq!(vec![1u8, 2].collect_some_vec(), Some(vec![1u8, 2]));
}

#[test]
fn collect_ok_vec_or_cases() {
    assert_eq!(Vec::<u8>::new().collect_ok_vec_or("none"), Err("none"));
    assert_eq!(vec![3u8].collect_ok_vec_or("none"), Ok(vec![3u8]));
}

#[test]
fn collect_ok_vec_or_default_cases() {
    assert_eq!(Vec::<u8>::new().collect_ok_vec_or_default::<String>(), Err(String::new()));
    assert_eq!(vec![3u8].collect_ok_vec_or_default::<String>(), Ok(vec![3u8]));
}
