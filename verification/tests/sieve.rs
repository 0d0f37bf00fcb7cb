use std::collections::HashMap;

use primality::sieve::{
    build_table, mark_in_parallel, mark_in_turn, merge, no_marks, record, EratosthenesSieve,
    PrimalityChecker,
};

fn sorted_keys(table: &HashMap<i64, bool>) -> Vec<i64> {
    let mut keys: Vec<i64> = table.keys().copied().collect();
    keys.sort();
    keys
}

fn pairs_below(limit: i64) -> Vec<(i64, i64)> {
    let mut pairs = Vec::new();
    for a in 2..limit {
        for b in 2..limit {
            pairs.push((a, b));
        }
    }
    pairs
}

#[test]
fn four_and_seventeen_in_turn() {
    let mut checker = EratosthenesSieve::new(1000, false);
    assert_eq!(checker.is_prime(4), false);
    assert_eq!(checker.is_prime(17), true);
}

#[test]
fn four_and_seventeen_in_parallel() {
    let mut checker = EratosthenesSieve::new(1000, true);
    assert_eq!(checker.is_prime(4), false);
    assert_eq!(checker.is_prime(17), true);
}

#[test]
fn table_of_limit_five() {
    let table = build_table(5, false);
    assert_eq!(sorted_keys(&table), vec![4, 6, 8, 9, 12, 16]);
    assert!(table.values().all(|marked| *marked));
}

#[test]
fn table_of_limit_five_in_parallel() {
    let table = build_table(5, true);
    assert_eq!(sorted_keys(&table), vec![4, 6, 8, 9, 12, 16]);
    assert!(table.values().all(|marked| *marked));
}

#[test]
fn table_of_limit_three() {
    assert_eq!(sorted_keys(&build_table(3, false)), vec![4]);
    assert_eq!(sorted_keys(&build_table(3, true)), vec![4]);
}

#[test]
fn degenerate_limits_mark_nothing() {
    for limit in [-5i64, 0, 1, 2] {
        assert!(build_table(limit, false).is_empty());
        assert!(build_table(limit, true).is_empty());
        let mut checker = EratosthenesSieve::new(limit, false);
        for n in -10i64..=30 {
            assert!(checker.is_prime(n));
        }
    }
}

#[test]
fn strategies_agree() {
    for limit in 2i64..=60 {
        assert_eq!(build_table(limit, false), build_table(limit, true), "limit = {}", limit);
    }
    assert_eq!(build_table(700, false), build_table(700, true));
}

#[test]
fn strategies_agree_on_any_pairs() {
    let pairs = vec![(3, 5), (-2, 7), (5, 3), (0, 9), (11, 11), (1, 15)];
    let in_turn = mark_in_turn(&pairs);
    assert_eq!(sorted_keys(&in_turn), vec![-14, 0, 15, 121]);
    assert_eq!(in_turn, mark_in_parallel(&pairs));
    let many = pairs_below(120);
    assert_eq!(mark_in_turn(&many), mark_in_parallel(&many));
}

#[test]
fn every_product_is_marked() {
    let limit = 40;
    let table = build_table(limit, true);
    for a in 2..limit {
        for b in 2..limit {
            assert_eq!(table.get(&(a * b)), Some(&true));
        }
    }
    let mut checker = EratosthenesSieve::new(limit, true);
    for a in 2..limit {
        for b in 2..limit {
            assert!(!checker.is_prime(a * b));
        }
    }
}

#[test]
fn only_products_are_marked() {
    let limit = 30i64;
    let mut checker = EratosthenesSieve::new(limit, false);
    for n in -50i64..=1000 {
        let reachable = (2..limit).any(|a| (2..limit).any(|b| a * b == n));
        assert_eq!(checker.is_prime(n), !reachable, "n = {}", n);
    }
}

#[test]
fn beyond_the_square_everything_passes() {
    let mut checker = EratosthenesSieve::new(10, false);
    assert!(!checker.is_prime(81));
    assert!(checker.is_prime(82));
    assert!(checker.is_prime(100));
    assert!(checker.is_prime(1_000_000));
    assert!(checker.is_prime(i64::MAX));
}

#[test]
fn composites_out_of_reach_pass() {
    let mut checker = EratosthenesSieve::new(10, false);
    assert!(checker.is_prime(11 * 13));
    assert!(checker.is_prime(2 * 11));
    assert!(!checker.is_prime(2 * 9));
}

#[test]
fn small_numbers_and_negatives_pass() {
    let mut checker = EratosthenesSieve::new(100, true);
    for n in [i64::MIN, -4, -1, 0, 1, 2, 3] {
        assert!(checker.is_prime(n));
    }
}

#[test]
fn exact_below_the_limit() {
    let limit = 200i64;
    let mut checker = EratosthenesSieve::new(limit, false);
    for n in 2..limit {
        let prime = (2..n).all(|d| n % d != 0);
        assert_eq!(checker.is_prime(n), prime, "n = {}", n);
    }
}

#[test]
fn table_is_built_once_and_kept() {
    let mut checker = EratosthenesSieve::new(50, true);
    let first = checker.get_sieve().clone();
    assert_eq!(first.len(), build_table(50, false).len());
    for n in 0..3000 {
        checker.is_prime(n);
    }
    assert_eq!(*checker.get_sieve(), first);
    let capacity = checker.get_sieve().capacity();
    checker.is_prime(4);
    assert_eq!(checker.get_sieve().capacity(), capacity);
    assert_eq!(*checker.get_sieve(), first);
}

#[test]
fn answers_do_not_change() {
    let mut checker = EratosthenesSieve::new(25, false);
    let first: Vec<bool> = (0..700).map(|n| checker.is_prime(n)).collect();
    let second: Vec<bool> = (0..700).map(|n| checker.is_prime(n)).collect();
    assert_eq!(first, second);
}

#[test]
fn supports_tells_what_can_be_built() {
    assert!(EratosthenesSieve::supports(i64::MIN));
    assert!(EratosthenesSieve::supports(0));
    assert!(EratosthenesSieve::supports(2));
    assert!(EratosthenesSieve::supports(10000));
    assert!(!EratosthenesSieve::supports(i64::MAX));
    assert!(!EratosthenesSieve::supports(1 << 33));
    let widest = ((isize::MAX as u128 / 16) as f64).sqrt() as i64;
    assert!(EratosthenesSieve::supports(widest + 2));
    assert!(!EratosthenesSieve::supports(widest + 3));
}

#[test]
fn a_new_sieve_builds_nothing() {
    assert!(EratosthenesSieve::supports(10000));
    let _in_turn = EratosthenesSieve::new(10000, false);
    let _in_parallel = EratosthenesSieve::new(10000, true);
}

#[test]
fn no_marks_is_empty() {
    assert!(no_marks().is_empty());
}

#[test]
fn record_marks_the_product() {
    let table = record(no_marks(), &(6, 7));
    assert_eq!(sorted_keys(&table), vec![42]);
    assert_eq!(table.get(&42), Some(&true));
    let table = record(table, &(7, 6));
    assert_eq!(table.len(), 1);
    let table = record(table, &(-3, 5));
    assert_eq!(sorted_keys(&table), vec![-15, 42]);
}

#[test]
fn merge_keeps_both_sides() {
    let left = record(record(no_marks(), &(2, 2)), &(2, 3));
    let right = record(record(no_marks(), &(2, 3)), &(3, 3));
    let both = merge(left, right);
    assert_eq!(sorted_keys(&both), vec![4, 6, 9]);
    assert!(both.values().all(|marked| *marked));
}

#[test]
fn merge_prefers_the_right_side() {
    let mut left = HashMap::new();
    left.insert(10, true);
    left.insert(20, true);
    let mut right = HashMap::new();
    right.insert(20, false);
    right.insert(30, false);
    let both = merge(left, right);
    assert_eq!(both.get(&10), Some(&true));
    assert_eq!(both.get(&20), Some(&false));
    assert_eq!(both.get(&30), Some(&false));
    assert_eq!(both.len(), 3);
}

#[test]
fn merge_with_an_empty_table() {
    let table = record(no_marks(), &(5, 5));
    assert_eq!(merge(table.clone(), no_marks()), table);
    assert_eq!(merge(no_marks(), table.clone()), table);
}
