use iterator_tools::{Dispatcher, Phase, ReduceAggregator, SearchAggregator, Span};

#[test]
fn search_keeps_the_smallest_position_in_any_order() {
    let mut a = SearchAggregator::after_prime(3, 3);
    assert_eq!(a.phase(), Phase::Dispatching);
    assert_eq!(a.in_flight(), 3);
    a.accept(Some(50));
    assert_eq!(a.phase(), Phase::Draining);
    assert_eq!(a.result(), Some(50));
    a.accept(Some(20));
    assert_eq!(a.result(), Some(20));
    a.accept(Some(35));
    assert_eq!(a.result(), Some(20));
    assert_eq!(a.phase(), Phase::Done);
    assert_eq!(a.in_flight(), 0);
}

#[test]
fn search_replaces_a_chunk_without_a_match() {
    let mut a = SearchAggregator::after_prime(2, 2);
    assert!(!a.wants_chunk());
    a.accept(None);
    assert_eq!(a.phase(), Phase::Dispatching);
    assert_eq!(a.in_flight(), 1);
    assert!(a.wants_chunk());
    a.dispatched();
    assert_eq!(a.in_flight(), 2);
    assert!(!a.wants_chunk());
    assert_eq!(a.result(), None);
}

#[test]
fn search_stops_dispatching_after_a_match() {
    let mut a = SearchAggregator::after_prime(2, 2);
    a.accept(Some(9));
    assert!(!a.wants_chunk());
    assert_eq!(a.phase(), Phase::Draining);
    a.accept(None);
    assert_eq!(a.phase(), Phase::Done);
    assert_eq!(a.result(), Some(9));
}

#[test]
fn search_drains_once_the_source_has_ended() {
    let mut a = SearchAggregator::after_prime(2, 2);
    a.accept(None);
    a.exhausted();
    assert_eq!(a.phase(), Phase::Draining);
    assert!(!a.wants_chunk());
    a.accept(None);
    assert_eq!(a.phase(), Phase::Done);
    assert_eq!(a.result(), None);
}

#[test]
fn search_over_nothing_is_done_at_once() {
    let a = SearchAggregator::after_prime(4, 0);
    assert_eq!(a.phase(), Phase::Done);
    assert_eq!(a.result(), None);
}

#[test]
fn search_primed_short_is_draining() {
    let a = SearchAggregator::after_prime(4, 2);
    assert_eq!(a.phase(), Phase::Draining);
    assert!(!a.wants_chunk());
}

#[test]
fn sum_adds_up_the_parts_in_any_order() {
    let mut a: ReduceAggregator<u64> = ReduceAggregator::after_prime(3, 3);
    assert!(!a.is_done());
    a.accept(30);
    a.accept(5);
    assert_eq!(a.in_flight(), 1);
    assert!(a.wants_chunk());
    a.dispatched();
    a.dispatched();
    assert!(!a.wants_chunk());
    a.accept(7);
    a.exhausted();
    assert!(!a.wants_chunk());
    a.accept(100);
    a.accept(1);
    assert!(a.is_done());
    assert_eq!(a.into_total(), 143);
}

#[test]
fn sum_over_nothing_is_the_identity() {
    let a: ReduceAggregator<u64> = ReduceAggregator::after_prime(3, 0);
    assert!(a.is_done());
    assert_eq!(a.into_total(), 0);
}

#[test]
fn chunks_that_report_in_reverse_give_the_first_match() {
    // 0..40 in chunks of 10, all four in flight; the multiples of 7 from 14 on match
    let mut d = Dispatcher::new(Span::new(0, 40), 10);
    let mut chunks = d.prime(4);
    let mut a = SearchAggregator::after_prime(4, chunks.len());
    while let Some(chunk) = chunks.pop_back() {
        a.accept(chunk.search(&|x| x >= 14 && x % 7 == 0));
    }
    assert_eq!(a.phase(), Phase::Done);
    assert_eq!(a.result(), Some(14));
}

#[test]
fn chunks_that_report_in_reverse_give_the_sum() {
    let mut d = Dispatcher::new(Span::through(0, 100), 10);
    let mut chunks = d.prime(20);
    let mut a: ReduceAggregator<u64> = ReduceAggregator::after_prime(20, chunks.len());
    assert_eq!(a.in_flight(), 11);
    while let Some(chunk) = chunks.pop_back() {
        a.accept(chunk.tally(&|x| x));
    }
    assert!(a.is_done());
    assert_eq!(a.into_total(), 5050);
}
