use iterator_tools::search::position;
use iterator_tools::reduce::tally;
use iterator_tools::{Chunk, Counter, Dispatcher, Items, Span};

fn parts<T>(chunk: Chunk<T>) -> (usize, usize, Vec<T>) {
    chunk.into_parts()
}

#[test]
fn chunks_are_cut_in_order_and_the_last_is_shorter() {
    let mut d = Dispatcher::new(Span::new(10, 20), 4);
    assert_eq!(parts(d.refill_one().unwrap()), (0, 4, vec![10, 11, 12, 13]));
    assert_eq!(parts(d.refill_one().unwrap()), (1, 4, vec![14, 15, 16, 17]));
    assert_eq!(parts(d.refill_one().unwrap()), (2, 4, vec![18, 19]));
    assert!(d.refill_one().is_none());
    assert!(d.refill_one().is_none());
}

#[test]
fn a_source_that_ends_on_a_chunk_boundary_gives_no_empty_chunk() {
    let mut d = Dispatcher::new(Span::new(0, 6), 3);
    assert_eq!(parts(d.refill_one().unwrap()), (0, 3, vec![0, 1, 2]));
    assert_eq!(parts(d.refill_one().unwrap()), (1, 3, vec![3, 4, 5]));
    assert!(d.refill_one().is_none());
}

#[test]
fn an_empty_source_gives_no_chunk() {
    let mut d = Dispatcher::new(Items::<u8>::new(Vec::new()), 3);
    assert!(d.refill_one().is_none());
    let mut d = Dispatcher::new(Items::<u8>::new(Vec::new()), 3);
    assert_eq!(d.prime(5).len(), 0);
}

#[test]
fn prime_hands_out_as_many_chunks_as_threads() {
    let mut d = Dispatcher::new(Counter::from(0), 2);
    let primed = d.prime(3);
    assert_eq!(primed.len(), 3);
    let mut seen = Vec::new();
    for chunk in primed {
        seen.push(parts(chunk));
    }
    assert_eq!(seen, vec![(0, 2, vec![0, 1]), (1, 2, vec![2, 3]), (2, 2, vec![4, 5])]);
    assert_eq!(parts(d.refill_one().unwrap()), (3, 2, vec![6, 7]));
}

#[test]
fn prime_hands_out_fewer_chunks_where_the_source_ends() {
    let mut d = Dispatcher::new(Span::new(0, 5), 2);
    let primed = d.prime(10);
    assert_eq!(primed.len(), 3);
    assert!(d.refill_one().is_none());
}

#[test]
fn prime_of_no_threads_takes_nothing() {
    let mut d = Dispatcher::new(Span::new(0, 5), 2);
    assert_eq!(d.prime(0).len(), 0);
    assert_eq!(parts(d.refill_one().unwrap()), (0, 2, vec![0, 1]));
}

#[test]
fn position_is_the_first_of_several_matches() {
    assert_eq!(position(vec![4u64, 7, 9, 7], &|x| x == 7), Some(1));
    assert_eq!(position(vec![4u64, 7, 9, 7], &|x| x == 4), Some(0));
    assert_eq!(position(vec![4u64, 7, 9, 7], &|x| x == 9), Some(2));
}

#[test]
fn position_of_no_match_is_none() {
    assert_eq!(position(vec![4u64, 7, 9, 7], &|x| x == 5), None);
    assert_eq!(position(Vec::<u64>::new(), &|x| x == 5), None);
}

#[test]
fn position_does_not_look_past_a_match() {
    let seen = std::cell::Cell::new(0);
    let r = position(vec![1u64, 2, 3, 4, 5], &|x| {
        seen.set(seen.get() + 1);
        x == 2
    });
    assert_eq!(r, Some(1));
    assert_eq!(seen.get(), 2);
}

#[test]
fn a_chunk_reports_its_index_times_the_chunk_size_plus_the_local_offset() {
    let mut d = Dispatcher::new(Span::new(100, 200), 4);
    let mut chunks = d.prime(4);
    let fourth = chunks.pop_back().unwrap();
    // chunk 3 of size 4 holds 112, 113, 114, 115
    assert_eq!(fourth.search(&|x| x == 114), Some(3 * 4 + 2));
    let third = chunks.pop_back().unwrap();
    assert_eq!(third.search(&|x| x > 108), Some(2 * 4 + 1));
    let second = chunks.pop_back().unwrap();
    assert_eq!(second.search(&|x| x == 0), None);
    let first = chunks.pop_back().unwrap();
    assert_eq!(first.search(&|x| x == 100), Some(0));
}

#[test]
fn a_chunk_sums_its_items() {
    let mut d = Dispatcher::new(Span::new(1, 8), 3);
    let first = d.refill_one().unwrap();
    let second = d.refill_one().unwrap();
    let third = d.refill_one().unwrap();
    assert_eq!(first.tally(&|x| x), 1u64 + 2 + 3);
    assert_eq!(second.tally(&|x| x * 10), 40u64 + 50 + 60);
    assert_eq!(third.tally(&|x| x), 7u64);
}

#[test]
fn tally_of_nothing_is_the_identity() {
    assert_eq!(tally(Vec::<u64>::new(), &|x| x), 0u64);
    assert_eq!(tally(vec![3u32, 4, 5], &|x| x * 2), 24u32);
    assert_eq!(tally(vec![3usize, 4, 5], &|x| x + 1), 15usize);
}
