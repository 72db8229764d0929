use iterator_tools::{ParallelSum, Span};

#[test]
fn test_parallel_sum() {
    let result = ParallelSum::map_sum(
        Span::through(0, 100u64),
        |x| x,
        10,
        1000,
    );
    assert_eq!(result, 100 * 101 / 2);
    let result = ParallelSum::map_sum(
        Span::through(0, 100u64),
        |x| x,
        10,
        100,
    );
    assert_eq!(result, 100 * 101 / 2);
    let result = ParallelSum::map_sum(
        Span::through(0, 100u64),
        |x| x,
        10,
        10,
    );
    assert_eq!(result, 100 * 101 / 2);
}

#[test]
fn test_parallel_sum_2() {
    let result = ParallelSum::map_sum(
        Span::through(0, 100u64),
        |x| x * x,
        10,
        10,
    );
    assert_eq!(result, 100 * 101 * 201 / 6);
}
