use bridgepath::segment::{Category, Segment};
use bridgepath::sequence::{Sequence, SequenceError};

fn manual_total(s: &Sequence) -> u64 {
    let mut total: u64 = 0;
    for i in 0..s.len() {
        total += s.get(i).length as u64;
    }
    total
}

fn assert_segment_valid(s: &Segment) {
    match s.category {
        Category::Traversable => {
            assert!(s.length == 100 || s.length == 200 || s.length == 300);
            assert!(s.height == 50 || s.height == 100 || s.height == 150);
        }
        Category::Gap => {
            assert!(s.length == 100 || s.length == 150 || s.length == 200);
            assert_eq!(s.height, 0);
        }
    }
}

fn assert_alternating(s: &Sequence) {
    for i in 1..s.len() {
        assert_ne!(s.get(i - 1).category, s.get(i).category);
    }
}

#[test]
fn initialize_covers_viewport() {
    let s = Sequence::initialize(800);
    let n = s.len();
    assert!(n > 0);
    assert_eq!(s.get(0).category, Category::Traversable);
    assert_alternating(&s);
    for i in 0..n {
        assert_segment_valid(s.get(i));
    }
    let total = s.covered_length();
    assert!(total > 800);
    assert!(total - s.get(n - 1).length as u64 <= 800);
}

#[test]
fn initialize_scenario_fixed_draws() {
    let s = Sequence::initialize_with_draws(800, 1, 1);
    assert_eq!(s.len(), 5);
    let expected_categories = [
        Category::Traversable,
        Category::Gap,
        Category::Traversable,
        Category::Gap,
        Category::Traversable,
    ];
    let expected_lengths: [u32; 5] = [200, 150, 200, 150, 200];
    for i in 0..5 {
        assert_eq!(s.get(i).category, expected_categories[i]);
        assert_eq!(s.get(i).length, expected_lengths[i]);
        match s.get(i).category {
            Category::Traversable => assert_eq!(s.get(i).height, 100),
            Category::Gap => assert_eq!(s.get(i).height, 0),
        }
    }
    assert_eq!(s.covered_length(), 900);
}

#[test]
fn initialize_zero_width() {
    let s = Sequence::initialize(0);
    assert_eq!(s.len(), 1);
    assert_eq!(s.get(0).category, Category::Traversable);
    assert!(s.covered_length() > 0);
}

#[test]
fn advance_returns_front() {
    let mut s = Sequence::initialize_with_draws(800, 1, 1);
    let old_first = *s.get(0);
    let old_second = *s.get(1);
    let removed = s.advance().unwrap();
    assert_eq!(removed, old_first);
    assert_eq!(s.len(), 4);
    assert_eq!(*s.get(0), old_second);
}

#[test]
fn advance_then_extend_preserves_shape() {
    let mut s = Sequence::initialize(800);
    let n = s.len();
    let old_second = *s.get(1);
    let old_last_category = s.get(n - 1).category;
    s.advance().unwrap();
    let appended = s.extend().unwrap();
    assert_eq!(s.len(), n);
    assert_eq!(*s.get(0), old_second);
    assert_eq!(s.get(n - 1).category, old_last_category.opposite());
    assert_eq!(appended.category, old_last_category.opposite());
    assert_alternating(&s);
}

#[test]
fn empty_sequence_failures() {
    let mut s = Sequence::initialize_with_draws(0, 0, 0);
    assert_eq!(s.len(), 1);
    s.advance().unwrap();
    assert_eq!(s.len(), 0);
    assert_eq!(s.advance(), Err(SequenceError::EmptySequence));
    assert_eq!(s.len(), 0);
    assert_eq!(s.extend(), Err(SequenceError::EmptySequence));
    assert_eq!(s.len(), 0);
    assert_eq!(s.extend_with_draws(2, 2), Err(SequenceError::EmptySequence));
    assert_eq!(s.len(), 0);
}

#[test]
fn extend_with_draws_exact() {
    let mut s = Sequence::initialize_with_draws(800, 1, 1);
    let n = s.len();
    assert_eq!(s.get(n - 1).category, Category::Traversable);
    let appended = s.extend_with_draws(2, 0).unwrap();
    assert_eq!(appended.category, Category::Gap);
    assert_eq!(appended.length, 200);
    assert_eq!(appended.height, 0);
    assert_eq!(*s.get(n), appended);
    let appended = s.extend_with_draws(0, 2).unwrap();
    assert_eq!(appended.category, Category::Traversable);
    assert_eq!(appended.length, 100);
    assert_eq!(appended.height, 150);
    assert_eq!(*s.get(n + 1), appended);
    assert_alternating(&s);
}

#[test]
fn extend_alternates() {
    let mut s = Sequence::initialize(400);
    for _ in 0..10 {
        let before_last = s.get(s.len() - 1).category;
        let appended = s.extend().unwrap();
        assert_eq!(appended.category, before_last.opposite());
        assert_segment_valid(&appended);
    }
    assert_alternating(&s);
}

#[test]
fn ten_tick_drive() {
    // With draws (0, 0) every segment is 100 long, so a 1050-wide viewport
    // takes 11 segments: ten cover 1000 <= 1050 and the eleventh crosses it.
    let mut s = Sequence::initialize_with_draws(1050, 0, 0);
    let n = s.len();
    assert_eq!(n, 11);
    for _ in 0..10 {
        s.advance().unwrap();
        s.extend().unwrap();
    }
    assert_eq!(s.len(), n);
    assert_eq!(s.get(0).category, Category::Traversable);
    assert_alternating(&s);
    for i in 0..s.len() {
        if i % 2 == 0 {
            assert_eq!(s.get(i).category, Category::Traversable);
        } else {
            assert_eq!(s.get(i).category, Category::Gap);
        }
    }
}

#[test]
fn covered_length_matches_sum() {
    let s = Sequence::initialize(2000);
    assert_eq!(s.covered_length(), manual_total(&s));
}
