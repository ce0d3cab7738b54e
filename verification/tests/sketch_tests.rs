use count_min::get_prime;
use count_min::CountMinSketch;
use count_min::SketchError;

fn is_prime_by_trial(x: u64) -> bool {
    if x < 2 {
        return false;
    }
    let mut d: u64 = 2;
    while d * d <= x {
        if x % d == 0 {
            return false;
        }
        d += 1;
    }
    true
}

#[test]
fn invalid_dimension_zero_rows() {
    let r = CountMinSketch::new(0, 100);
    assert!(matches!(r, Err(SketchError::InvalidDimension)));
}

#[test]
fn invalid_dimension_zero_columns() {
    let r = CountMinSketch::new(3, 0);
    assert!(matches!(r, Err(SketchError::InvalidDimension)));
}

#[test]
fn get_prime_exact_values() {
    assert_eq!(get_prime(1), 2);
    assert_eq!(get_prime(2), 2);
    assert_eq!(get_prime(5), 5);
    assert_eq!(get_prime(8), 11);
    assert_eq!(get_prime(90), 97);
    assert_eq!(get_prime(10000), 10007);
    assert_eq!(get_prime(65521), 65521);
}

#[test]
fn prime_column_normalization() {
    let sketch = CountMinSketch::new(3, 10000).unwrap();
    let cols = sketch.num_columns();
    assert!(cols >= 10000);
    assert!(is_prime_by_trial(cols));
    assert_eq!(cols, 10007);
    assert_eq!(sketch.num_rows(), 3);
}

#[test]
fn concrete_single_insert_scenario() {
    let mut sketch = CountMinSketch::new(3, 5).unwrap();
    assert_eq!(sketch.num_columns(), 5);
    sketch.insert(4, 114514);
    assert_eq!(sketch.query(4), 114514);
}

#[test]
fn fresh_sketch_queries_zero() {
    let sketch = CountMinSketch::new(4, 97).unwrap();
    assert_eq!(sketch.query(0), 0);
    assert_eq!(sketch.query(-12345), 0);
    assert_eq!(sketch.query(i64::MAX), 0);
}

#[test]
fn smallest_dimensions() {
    let sketch = CountMinSketch::new(1, 1).unwrap();
    assert_eq!(sketch.num_rows(), 1);
    assert_eq!(sketch.num_columns(), 2);
    assert_eq!(sketch.query(7), 0);
}

#[test]
fn single_key_totals_exactly() {
    let mut sketch = CountMinSketch::new(3, 1000).unwrap();
    sketch.insert(42, 10);
    sketch.insert(42, 0);
    sketch.insert(42, 32);
    assert_eq!(sketch.query(42), 42);
}

#[test]
fn single_huge_amount() {
    let mut sketch = CountMinSketch::new(2, 17).unwrap();
    sketch.insert(9, i64::MAX);
    assert_eq!(sketch.query(9), i64::MAX);
}

#[test]
fn queries_stay_nonnegative() {
    let mut sketch = CountMinSketch::new(3, 50).unwrap();
    for key in 0..200i64 {
        sketch.insert(key, (key % 7) as i64);
        assert!(sketch.query(key) >= 0);
        assert!(sketch.query(key + 1) >= 0);
        assert!(sketch.query(-key) >= 0);
    }
}

#[test]
fn queries_never_underestimate() {
    let mut sketch = CountMinSketch::new(3, 50).unwrap();
    let mut true_total = [0i64; 60];
    for round in 0..5i64 {
        for key in 0..60i64 {
            let amount = key + round;
            sketch.insert(key, amount);
            true_total[key as usize] += amount;
        }
    }
    for key in 0..60i64 {
        assert!(sketch.query(key) >= true_total[key as usize]);
    }
}

#[test]
fn monotonic_under_inserts() {
    let mut sketch = CountMinSketch::new(3, 100).unwrap();
    let watched: i64 = 5;
    let mut last = sketch.query(watched);
    for key in 0..300i64 {
        sketch.insert(key, 3);
        let now = sketch.query(watched);
        assert!(now >= last);
        last = now;
    }
}

#[test]
fn identical_replays_agree() {
    let mut a = CountMinSketch::new(3, 10000).unwrap();
    let mut b = CountMinSketch::new(3, 10000).unwrap();
    assert_eq!(a.num_columns(), b.num_columns());
    for key in 0..500i64 {
        let amount = (key * key) % 1000;
        a.insert(key, amount);
        b.insert(key, amount);
    }
    for key in -100..700i64 {
        assert_eq!(a.query(key), b.query(key));
    }
}

#[test]
fn row_seeds_change_the_hash() {
    // 65522 = 65521 + 1: were the hash to echo its key argument, both keys
    // would share every slot of the 65521-column sketch, and the untouched
    // key would read back the full inserted amount.
    let mut sketch = CountMinSketch::new(3, 65521).unwrap();
    sketch.insert(1, 100);
    assert_eq!(sketch.query(65522), 0);
}

#[test]
fn accuracy_improves_with_more_columns() {
    // A Zipf-like trace: key i carries amount max(1, 10000 / (i + 1)).
    // Relative error is one-sided, and the wider sketch's median error is
    // no worse than the narrow sketch's.
    let n_keys: i64 = 10000;
    let mut narrow = CountMinSketch::new(3, 100).unwrap();
    let mut wide = CountMinSketch::new(3, 10000).unwrap();
    let mut truth = vec![0i64; n_keys as usize];
    for i in 0..n_keys {
        let amount = std::cmp::max(1, 10000 / (i + 1));
        narrow.insert(i, amount);
        wide.insert(i, amount);
        truth[i as usize] = amount;
    }
    let mut narrow_errors: Vec<f64> = Vec::new();
    let mut wide_errors: Vec<f64> = Vec::new();
    for i in 0..n_keys {
        let t = truth[i as usize] as f64;
        let narrow_err = (narrow.query(i) as f64 - t) / t;
        let wide_err = (wide.query(i) as f64 - t) / t;
        assert!(narrow_err >= 0.0);
        assert!(wide_err >= 0.0);
        narrow_errors.push(narrow_err);
        wide_errors.push(wide_err);
    }
    narrow_errors.sort_by(|a, b| a.partial_cmp(b).unwrap());
    wide_errors.sort_by(|a, b| a.partial_cmp(b).unwrap());
    let mid = (n_keys / 2) as usize;
    assert!(wide_errors[mid] <= narrow_errors[mid]);
}
