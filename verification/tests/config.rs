use iterator_tools::{check_config, ConfigError, ParallelPosition, ParallelSum, Span};

#[test]
fn a_thread_cap_of_zero_is_refused() {
    assert_eq!(check_config(0, 10), Err(ConfigError::ZeroThreads));
}

#[test]
fn a_chunk_size_of_zero_is_refused() {
    assert_eq!(check_config(10, 0), Err(ConfigError::ZeroChunkSize));
}

#[test]
fn the_thread_cap_is_named_where_both_are_zero() {
    assert_eq!(check_config(0, 0), Err(ConfigError::ZeroThreads));
}

#[test]
fn numbers_above_zero_are_accepted() {
    assert_eq!(check_config(1, 1), Ok(()));
    assert_eq!(check_config(usize::MAX, usize::MAX), Ok(()));
}

#[test]
fn try_find_refuses_zero() {
    let r = ParallelPosition::try_find(Span::new(0, 10), |x| x == 3, 0, 4);
    assert_eq!(r, Err(ConfigError::ZeroThreads));
    let r = ParallelPosition::try_find(Span::new(0, 10), |x| x == 3, 4, 0);
    assert_eq!(r, Err(ConfigError::ZeroChunkSize));
}

#[test]
fn try_find_takes_nothing_from_the_source_where_it_refuses() {
    let pulled = std::cell::Cell::new(0);
    let r = ParallelPosition::try_find(
        Span::new(0, 10),
        |x| {
            pulled.set(pulled.get() + 1);
            x == 3
        },
        4,
        0,
    );
    assert_eq!(r, Err(ConfigError::ZeroChunkSize));
    assert_eq!(pulled.get(), 0);
}

#[test]
fn try_find_finds() {
    let r = ParallelPosition::try_find(Span::new(0, 10), |x| x == 3, 2, 4);
    assert_eq!(r, Ok(Some(3)));
    let r = ParallelPosition::try_find(Span::new(0, 10), |x| x == 30, 2, 4);
    assert_eq!(r, Ok(None));
}

#[test]
fn try_map_sum_refuses_zero() {
    let r: Result<u64, ConfigError> = ParallelSum::try_map_sum(Span::new(0, 10), |x| x, 0, 4);
    assert_eq!(r, Err(ConfigError::ZeroThreads));
    let r: Result<u64, ConfigError> = ParallelSum::try_map_sum(Span::new(0, 10), |x| x, 4, 0);
    assert_eq!(r, Err(ConfigError::ZeroChunkSize));
}

#[test]
fn try_map_sum_sums() {
    let r: Result<u64, ConfigError> = ParallelSum::try_map_sum(Span::new(0, 10), |x| x, 3, 4);
    assert_eq!(r, Ok(45));
}
