use bloom::evaluate::{check_lines, filter_from_lines, CheckReport};
use bloom::filter::BloomError;

fn lines(v: &[&str]) -> Vec<String> {
    v.iter().map(|s| s.to_string()).collect()
}

#[test]
fn three_line_corpus() {
    let corpus = lines(&["a", "b", "c"]);
    let f = filter_from_lines(&corpus, 3, 15, 3).unwrap();
    assert!(f.contains(&"a".to_string()));
    assert!(f.contains(&"b".to_string()));
    assert!(f.contains(&"c".to_string()));
    let probe = "c7".to_string();
    assert_eq!(f.contains(&probe), f.contains(&probe));
    let r = check_lines(&corpus, &f);
    assert_eq!(r.true_positives, 3);
    assert_eq!(r.false_negatives, 0);
    assert_eq!(r.false_positives + r.true_negatives, 15);
}

#[test]
fn absent_strings_differ_from_the_lines() {
    let corpus = lines(&["a", "bb", "cc", "d", "e", "f", "g", "h", "i", "j"]);
    let f = filter_from_lines(&corpus, 10, 96, 7).unwrap();
    let r = check_lines(&corpus, &f);
    assert_eq!(r.true_positives, 10);
    assert_eq!(r.false_negatives, 0);
    assert_eq!(r.false_positives + r.true_negatives, 96);
    assert!(r.false_positives < 96);
}

#[test]
fn empty_corpus() {
    let corpus: Vec<String> = Vec::new();
    let f = filter_from_lines(&corpus, 1, 5, 3).unwrap();
    let r = check_lines(&corpus, &f);
    assert_eq!(r.true_positives, 0);
    assert_eq!(r.false_negatives, 0);
    assert_eq!(r.false_positives, 0);
    assert_eq!(
        r,
        CheckReport { true_positives: 0, false_negatives: 0, false_positives: 0, true_negatives: 5 }
    );
}

#[test]
fn corpus_with_repeated_lines() {
    let corpus = lines(&["x", "y", "x", "", "y"]);
    let f = filter_from_lines(&corpus, 5, 24, 3).unwrap();
    let r = check_lines(&corpus, &f);
    assert_eq!(r.true_positives, 5);
    assert_eq!(r.false_negatives, 0);
    assert_eq!(r.false_positives + r.true_negatives, 24);
}

#[test]
fn lines_against_another_filter() {
    let built = lines(&["one", "two"]);
    let f = filter_from_lines(&built, 2, 200, 5).unwrap();
    let other = lines(&["three", "four", "one"]);
    let r = check_lines(&other, &f);
    assert!(r.true_positives >= 1);
    assert_eq!(r.true_positives + r.false_negatives, 3);
    assert_eq!(r.false_positives + r.true_negatives, 200);
}

#[test]
fn invalid_corpus_filter_is_rejected() {
    let corpus = lines(&["a"]);
    assert_eq!(filter_from_lines(&corpus, 0, 15, 3).err(), Some(BloomError::InvalidParameter));
    assert_eq!(filter_from_lines(&corpus, 3, 0, 3).err(), Some(BloomError::InvalidParameter));
}
