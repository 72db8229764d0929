use iterator_tools::{Counter, Items, ParallelPosition, ParallelSum, Span};

#[test]
fn find_is_the_same_for_every_chunk_size() {
    for chunk_size in [1, 10, 100] {
        let r = ParallelPosition::find(Counter::from(0), |x| x == 1_234, 5, chunk_size);
        assert_eq!(r, Some(1_234));
    }
}

#[test]
fn find_is_the_same_for_every_thread_cap() {
    for num_threads in [1, 5, 100] {
        let r = ParallelPosition::find(Counter::from(0), |x| x == 1_234, num_threads, 10);
        assert_eq!(r, Some(1_234));
    }
}

#[test]
fn find_gives_the_first_of_several_matches() {
    for num_threads in [1, 2, 3, 7] {
        for chunk_size in [1, 2, 3, 5, 50] {
            let r = ParallelPosition::find(
                Span::new(0, 40),
                |x| x % 10 == 9,
                num_threads,
                chunk_size,
            );
            assert_eq!(r, Some(9));
        }
    }
}

#[test]
fn find_counts_from_the_front_of_the_source() {
    let r = ParallelPosition::find(Span::new(100, 200), |x| x == 150, 4, 8);
    assert_eq!(r, Some(50));
    let r = ParallelPosition::find(Counter::from(5), |x| x == 5, 4, 8);
    assert_eq!(r, Some(0));
}

#[test]
fn find_in_the_last_chunk_and_at_the_last_place() {
    let r = ParallelPosition::find(Span::new(0, 23), |x| x == 22, 3, 5);
    assert_eq!(r, Some(22));
}

#[test]
fn find_over_an_empty_source_is_none() {
    let r = ParallelPosition::find(Span::new(0, 0), |_| true, 3, 5);
    assert_eq!(r, None);
}

#[test]
fn find_over_items_that_are_not_numbers() {
    let words = vec!["ash".to_string(), "oak".to_string(), "elm".to_string(), "oak".to_string()];
    let r = ParallelPosition::find(Items::new(words), |w: String| w == "oak", 2, 1);
    assert_eq!(r, Some(1));
}

#[test]
fn find_twice_gives_the_same() {
    let first = ParallelPosition::find(Counter::from(0), |x| x * x > 2_000, 6, 7);
    let second = ParallelPosition::find(Counter::from(0), |x| x * x > 2_000, 6, 7);
    assert_eq!(first, Some(45));
    assert_eq!(first, second);
}

#[test]
fn find_match_in_the_very_first_item() {
    let r = ParallelPosition::find(Counter::from(0), |x| x == 0, 100, 50);
    assert_eq!(r, Some(0));
}

#[test]
fn map_sum_is_the_same_for_every_chunk_size() {
    for chunk_size in [1, 10, 100] {
        let r: u64 = ParallelSum::map_sum(Span::through(0, 100), |x| x, 10, chunk_size);
        assert_eq!(r, 5050);
    }
}

#[test]
fn map_sum_is_the_same_for_every_thread_cap() {
    for num_threads in [1, 5, 100] {
        let r: u64 = ParallelSum::map_sum(Span::through(0, 100), |x| x * x, num_threads, 10);
        assert_eq!(r, 338_350);
    }
}

#[test]
fn map_sum_of_the_numbers_to_a_hundred() {
    let r: u64 = ParallelSum::map_sum(Span::through(0, 100), |x| x, 10, 1000);
    assert_eq!(r, 5050);
}

#[test]
fn map_sum_of_the_squares_to_a_hundred() {
    let r: u64 = ParallelSum::map_sum(Span::through(0, 100), |x| x * x, 10, 10);
    assert_eq!(r, 338_350);
}

#[test]
fn map_sum_over_an_empty_source_is_the_identity() {
    let r: u64 = ParallelSum::map_sum(Span::new(0, 0), |x| x, 3, 4);
    assert_eq!(r, 0);
}

#[test]
fn map_sum_twice_gives_the_same() {
    let first: u64 = ParallelSum::map_sum(Span::new(1, 50), |x| 3 * x + 1, 4, 6);
    let second: u64 = ParallelSum::map_sum(Span::new(1, 50), |x| 3 * x + 1, 4, 6);
    assert_eq!(first, 3 * (49 * 50 / 2) + 49);
    assert_eq!(first, second);
}

#[test]
fn map_sum_into_other_result_types() {
    let lengths: usize =
        ParallelSum::map_sum(Items::new(vec!["ab", "", "cde", "f"]), |w: &str| w.len(), 2, 3);
    assert_eq!(lengths, 6);
    let small: u32 = ParallelSum::map_sum(Span::new(0, 10), |x| x as u32, 2, 3);
    assert_eq!(small, 45);
}
