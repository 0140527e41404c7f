//! Sets of integers.

use table_providers::mongodb::intset::{Cmp, IntSet};

const WHOLE: (i128, i128) = (i128::MIN, i128::MAX);

#[test]
fn a_comparison_is_a_set() {
    assert_eq!(IntSet::compare(Cmp::NotEq, 5), IntSet::RangeBut(WHOLE.0, WHOLE.1, 5));
    assert_eq!(IntSet::compare(Cmp::Eq, 5), IntSet::Range(5, 5));
    assert_eq!(IntSet::compare(Cmp::Lt, 5), IntSet::Range(WHOLE.0, 4));
    assert_eq!(IntSet::compare_ratio(Cmp::NotEq, 11, 2), IntSet::all());
    assert_eq!(IntSet::compare_ratio(Cmp::GtEq, 11, 2), IntSet::Range(6, WHOLE.1));
}

#[test]
fn a_set_is_limited_to_its_bounds() {
    let others = IntSet::compare(Cmp::NotEq, 5);
    assert_eq!(others.within(0, 10), IntSet::RangeBut(0, 10, 5));
    assert_eq!(others.within(5, 10), IntSet::RangeBut(5, 10, 5));
    assert_eq!(others.within(6, 10), IntSet::Range(6, 10));
    assert_eq!(others.within(10, 0), IntSet::Empty);
    assert_eq!(others.within(0, 10).within(3, 20), IntSet::RangeBut(3, 10, 5));
    assert_eq!(others.within(0, 10).within(6, 20), IntSet::Range(6, 10));
    assert_eq!(others.within(0, 10).within(11, 20), IntSet::Empty);
    assert_eq!(IntSet::all().within(-3, 3), IntSet::Range(-3, 3));
    assert_eq!(IntSet::Range(0, 5).within(7, 9), IntSet::Empty);
    assert_eq!(IntSet::Empty.within(0, 10), IntSet::Empty);
}

#[test]
fn limiting_twice_is_limiting_once() {
    for set in [IntSet::all(), IntSet::compare(Cmp::NotEq, 0), IntSet::Range(-9, 2)] {
        assert_eq!(set.within(-4, 4).within(-4, 4), set.within(-4, 4));
    }
}

#[test]
fn a_coarser_set_holds_the_values_whose_multiples_were_held() {
    let others = IntSet::compare(Cmp::NotEq, 5_000);
    assert_eq!(others.within(1, 9_999).scaled_down(1_000), IntSet::RangeBut(1, 9, 5));
    assert_eq!(others.within(5_001, 9_999).scaled_down(1_000), IntSet::Range(6, 9));
    let between = IntSet::compare(Cmp::NotEq, 5_001).within(-1_500, 9_999);
    assert_eq!(between.scaled_down(1_000), IntSet::Range(-1, 9));
    assert_eq!(IntSet::Range(1, 999).scaled_down(1_000), IntSet::Empty);
    assert_eq!(others.scaled_down(1_000), IntSet::RangeBut(WHOLE.0, WHOLE.1, 5));
}
