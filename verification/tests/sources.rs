use iterator_tools::{Counter, Items, Source, Span};

#[test]
fn counter_counts_up_from_its_start() {
    let mut c = Counter::from(7);
    assert_eq!(c.pull(), Some(7));
    assert_eq!(c.pull(), Some(8));
    assert_eq!(c.pull(), Some(9));
}

#[test]
fn counter_goes_on_from_zero_after_the_largest_number() {
    let mut c = Counter::from(u64::MAX - 1);
    assert_eq!(c.pull(), Some(u64::MAX - 1));
    assert_eq!(c.pull(), Some(u64::MAX));
    assert_eq!(c.pull(), Some(0));
    assert_eq!(c.pull(), Some(1));
}

#[test]
fn span_leaves_out_its_upper_end() {
    let mut s = Span::new(3, 6);
    assert_eq!(s.pull(), Some(3));
    assert_eq!(s.pull(), Some(4));
    assert_eq!(s.pull(), Some(5));
    assert_eq!(s.pull(), None);
    assert_eq!(s.pull(), None);
}

#[test]
fn span_through_holds_its_upper_end() {
    let mut s = Span::through(3, 5);
    assert_eq!(s.pull(), Some(3));
    assert_eq!(s.pull(), Some(4));
    assert_eq!(s.pull(), Some(5));
    assert_eq!(s.pull(), None);
}

#[test]
fn span_with_ends_the_wrong_way_round_is_empty() {
    let mut s = Span::new(6, 3);
    assert_eq!(s.pull(), None);
    let mut s = Span::new(4, 4);
    assert_eq!(s.pull(), None);
    let mut s = Span::through(6, 3);
    assert_eq!(s.pull(), None);
}

#[test]
fn span_of_one_number() {
    let mut s = Span::through(4, 4);
    assert_eq!(s.pull(), Some(4));
    assert_eq!(s.pull(), None);
}

#[test]
fn span_ends_at_the_largest_number() {
    let mut s = Span::through(u64::MAX - 1, u64::MAX);
    assert_eq!(s.pull(), Some(u64::MAX - 1));
    assert_eq!(s.pull(), Some(u64::MAX));
    assert_eq!(s.pull(), None);
    assert_eq!(s.pull(), None);
}

#[test]
fn items_come_in_the_order_of_the_vector() {
    let mut s = Items::new(vec!["a", "b", "c"]);
    assert_eq!(s.pull(), Some("a"));
    assert_eq!(s.pull(), Some("b"));
    assert_eq!(s.pull(), Some("c"));
    assert_eq!(s.pull(), None);
    assert_eq!(s.pull(), None);
}

#[test]
fn items_of_an_empty_vector() {
    let mut s: Items<u8> = Items::new(Vec::new());
    assert_eq!(s.pull(), None);
}
