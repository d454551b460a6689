use std::cmp::Ordering;

use nuttyverse_core::fractional_index::FractionalIndex;
use nuttyverse_core::fractional_index::FractionalIndexError;

fn key(s: &str) -> FractionalIndex {
    FractionalIndex::new(s.to_string()).unwrap()
}

#[test]
fn test_between() {
    let start = FractionalIndex::start();
    let end = FractionalIndex::end();

    let middle = FractionalIndex::between(&start, &end).unwrap();
    assert!(start < middle);
    assert!(middle < end);

    let quarter = FractionalIndex::between(&start, &middle).unwrap();
    assert!(start < quarter);
    assert!(quarter < middle);

    let three_quarters = FractionalIndex::between(&middle, &end).unwrap();
    assert!(middle < three_quarters);
    assert!(three_quarters < end);
}

#[test]
fn test_ordering() {
    let indices = [
        FractionalIndex::start(),
        FractionalIndex::between(&FractionalIndex::start(), &FractionalIndex::end()).unwrap(),
        FractionalIndex::end(),
    ];

    for i in 0..indices.len() {
        for j in 0..indices.len() {
            match i.cmp(&j) {
                Ordering::Less => assert!(indices[i] < indices[j]),
                Ordering::Greater => assert!(indices[i] > indices[j]),
                Ordering::Equal => assert!(indices[i] == indices[j]),
            }
        }
    }
}

#[test]
fn test_identical_indices() {
    let index = FractionalIndex::start();
    assert!(FractionalIndex::between(&index, &index).is_err());
}

#[test]
fn test_invalid_characters() {
    assert!(FractionalIndex::new("\x00".to_string()).is_err());
    assert!(FractionalIndex::new("\x1F".to_string()).is_err());
    assert!(FractionalIndex::new(" ".to_string()).is_err());
    assert!(FractionalIndex::new("\x7F".to_string()).is_err());
    assert!(FractionalIndex::new("é".to_string()).is_err());
}

#[test]
fn start_and_end_are_the_extreme_symbols() {
    assert_eq!(FractionalIndex::start().as_str(), "!");
    assert_eq!(FractionalIndex::end().as_str(), "~");
}

#[test]
fn new_names_the_first_invalid_character() {
    match FractionalIndex::new("ab cd\x7F".to_string()) {
        Err(FractionalIndexError::InvalidCharacter(c)) => assert_eq!(c, ' '),
        other => panic!("unexpected {other:?}"),
    }
    assert_eq!(key("abc").as_str(), "abc");
    assert_eq!(key("").as_str(), "");
}

#[test]
fn identical_indices_error_variant() {
    let a = key("P");
    assert_eq!(
        FractionalIndex::between(&a, &a).unwrap_err(),
        FractionalIndexError::IdenticalIndices
    );
}

#[test]
fn midpoint_of_start_and_end_is_exact() {
    // positions 0 and 93: the sum 93 is odd, so one more digit (47) is appended.
    let m = FractionalIndex::between(&FractionalIndex::start(), &FractionalIndex::end()).unwrap();
    assert_eq!(m.as_str(), "OP");
}

#[test]
fn midpoint_with_even_sum_keeps_the_length() {
    // positions 0 and 2 average to 1.
    let m = FractionalIndex::between(&key("!"), &key("#")).unwrap();
    assert_eq!(m.as_str(), "\"");
}

#[test]
fn midpoint_carries_into_the_higher_digit() {
    // [0, 93] and [1, 93]: sum 94*1 + 186 = 280, half 140 = [1, 46].
    let a = key("!~");
    let b = key("\"~");
    let m = FractionalIndex::between(&a, &b).unwrap();
    assert_eq!(m.as_str(), "\"O");
    assert!(a < m && m < b);
    assert!(FractionalIndex::new(m.as_str().to_string()).is_ok());
}

#[test]
fn between_works_for_swapped_bounds() {
    let a = key("A");
    let b = key("z");
    let m = FractionalIndex::between(&b, &a).unwrap();
    assert!(a < m && m < b);
}

#[test]
fn repeated_insertion_stays_between_outer_neighbours() {
    let a = key("!");
    let b = key("\"");
    let mut hi = FractionalIndex::between(&a, &b).unwrap();
    for _ in 0..20 {
        let next = FractionalIndex::between(&a, &hi).unwrap();
        assert!(a < next && next < hi && next < b);
        hi = next;
    }
}

#[test]
fn padding_aware_order_matches_midpoint_order() {
    let x = key("B");
    let y = key("A~~");
    let end = FractionalIndex::end();
    let mx = FractionalIndex::between(&x, &end).unwrap();
    let my = FractionalIndex::between(&y, &end).unwrap();
    assert!(y < x);
    assert!(my < mx);
    // trailing minimum symbols do not change the position in the order
    let p = key("B!!");
    assert!(!(p < x) && !(x < p));
    assert_eq!(p.partial_cmp(&x), Some(Ordering::Equal));
}

#[test]
fn keys_equal_once_padded_have_no_midpoint() {
    let p = key("P");
    let q = key("P!");
    assert!(p == q);
    assert_eq!(
        FractionalIndex::between(&p, &q).unwrap_err(),
        FractionalIndexError::IdenticalIndices
    );
    assert_eq!(
        FractionalIndex::between(&key("!"), &key("")).unwrap_err(),
        FractionalIndexError::IdenticalIndices
    );
}
