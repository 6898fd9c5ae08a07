use bloom::filter::{BloomError, BloomFilter};

/// The sizes that the usual formulas give for `n` items at rate `p`.
fn sizes(n: usize, p: f64) -> (usize, usize) {
    let ln2 = 2f64.ln();
    let m = (-(n as f64) * p.ln() / (ln2 * ln2)).ceil();
    let m = if m > 0.0 { m as usize } else { 0 };
    let k = if n == 0 { 0 } else { (m as f64 / n as f64 * ln2).round() as usize };
    (m, k)
}

fn sized(n: usize, p: f64) -> BloomFilter<String> {
    let (m, k) = sizes(n, p);
    BloomFilter::new(n, m, k).unwrap()
}

#[test]
fn sizes_for_three_items() {
    assert_eq!(sizes(3, 0.1), (15, 3));
    let f = sized(3, 0.1);
    assert_eq!(f.size(), 15);
    assert_eq!(f.hash_count(), 3);
}

#[test]
fn empty_filter_finds_nothing() {
    let f = sized(10, 0.1);
    for i in 0..100 {
        assert!(!f.contains(&format!("item{}", i)));
    }
}

#[test]
fn added_items_are_found() {
    let mut f = sized(50, 0.05);
    let first = "first".to_string();
    f.add(&first);
    assert!(f.contains(&first));
    for i in 0..200 {
        f.add(&format!("other{}", i));
        assert!(f.contains(&first));
    }
    for i in 0..200 {
        assert!(f.contains(&format!("other{}", i)));
    }
}

#[test]
fn adding_twice_changes_nothing() {
    let mut once = sized(20, 0.1);
    let mut twice = sized(20, 0.1);
    let x = "twice".to_string();
    once.add(&x);
    twice.add(&x);
    twice.add(&x);
    for i in 0..500 {
        let q = format!("q{}", i);
        assert_eq!(once.contains(&q), twice.contains(&q));
    }
    assert!(once.contains(&x));
    assert!(twice.contains(&x));
}

#[test]
fn hash_count_is_at_least_one() {
    let f: BloomFilter<String> = BloomFilter::new(10, 5, 0).unwrap();
    assert_eq!(f.hash_count(), 1);
    assert_eq!(f.size(), 5);
    let g: BloomFilter<String> = BloomFilter::new(10, 50, 4).unwrap();
    assert_eq!(g.hash_count(), 4);
    let (m, k) = sizes(1000, 0.999);
    assert_eq!(k, 0);
    let h: BloomFilter<String> = BloomFilter::new(1000, m, k).unwrap();
    assert_eq!(h.hash_count(), 1);
}

#[test]
fn invalid_construction_is_rejected() {
    let (m, k) = sizes(0, 0.1);
    let r: Result<BloomFilter<String>, BloomError> = BloomFilter::new(0, m, k);
    assert_eq!(r.err(), Some(BloomError::InvalidParameter));
    let r: Result<BloomFilter<String>, BloomError> = BloomFilter::new(0, 15, 3);
    assert_eq!(r.err(), Some(BloomError::InvalidParameter));
    let (m, k) = sizes(100, 1.0);
    assert_eq!(m, 0);
    let r: Result<BloomFilter<String>, BloomError> = BloomFilter::new(100, m, k);
    assert_eq!(r.err(), Some(BloomError::InvalidParameter));
}

#[test]
fn hash_depends_on_seed_and_item() {
    let a = "alpha".to_string();
    let b = "beta".to_string();
    assert_eq!(BloomFilter::<String>::hash(3, &a), BloomFilter::<String>::hash(3, &a));
    assert_ne!(BloomFilter::<String>::hash(0, &a), BloomFilter::<String>::hash(1, &a));
    assert_ne!(BloomFilter::<String>::hash(0, &a), BloomFilter::<String>::hash(0, &b));
}

#[test]
fn false_positive_rate_is_near_target() {
    let mut f = sized(1000, 0.1);
    for i in 0..1000 {
        f.add(&i.to_string());
    }
    let mut positives = 0usize;
    for i in 0..10000 {
        if f.contains(&format!("absent-{}", i)) {
            positives += 1;
        }
    }
    let rate = positives as f64 / 10000.0;
    assert!(rate >= 0.05 && rate <= 0.2, "rate {}", rate);
}
