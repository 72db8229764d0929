use iterator_tools::{Counter, ParallelPosition, Span};

#[test]
fn parallel_position_find_test_1() {
    let result = ParallelPosition::find(
        Counter::from(0),
        |x| x == 10_000,
        28,
        1,
    );
    assert_eq!(result, Some(10_000));
}

#[test]
fn parallel_position_find_test_2() {
    let result = ParallelPosition::find(
        Counter::from(0),
        |x| x == 0,
        100,
        50,
    );
    assert_eq!(result, Some(0));
}

#[test]
fn parallel_position_find_test_3() {
    let result = ParallelPosition::find(
        Counter::from(0),
        |x| x == 100_000,
        5,
        100,
    );
    assert_eq!(result, Some(100_000));
}

#[test]
fn parallel_position_find_test_4() {
    let result = ParallelPosition::find(
        Span::new(1, 100),
        |x| x == 0,
        5,
        100,
    );
    assert_eq!(result, None);
}

#[test]
fn test_find_test_1() {
    let result = ParallelPosition::find(
        Counter::from(0),
        |x| x == 10_000,
        28,
        1,
    );
    assert_eq!(result, Some(10_000));
}

#[test]
fn test_find_test_2() {
    let result = ParallelPosition::find(
        Counter::from(0),
        |x| x == 0,
        100,
        50,
    );
    assert_eq!(result, Some(0));
}

#[test]
fn test_find_test_3() {
    let result = ParallelPosition::find(
        Counter::from(0),
        |x| x == 100_000,
        5,
        100,
    );
    assert_eq!(result, Some(100_000));
}

#[test]
fn test_find_test_4() {
    let result = ParallelPosition::find(
        Span::new(1, 100000),
        |x| x == 0,
        5,
        100,
    );
    assert_eq!(result, None);
}
