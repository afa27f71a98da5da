#[test]
fn add_function() {
    let result = runtime::add(1, 2);
    assert_eq!(result, 3)
}

#[test]
fn fib_function() {
    let result = runtime::fib(14);
    assert_eq!(result, 377)
}

#[test]
fn fibonacci_small_values() {
    let expected = [0u32, 1, 1, 2, 3, 5, 8, 13, 21, 34, 55];
    for (n, want) in expected.iter().enumerate() {
        assert_eq!(runtime::fibonacci(n as u32), *want);
    }
    assert_eq!(runtime::fib(0), 0);
    assert_eq!(runtime::fib(1), 1);
}

#[test]
fn add_negative_operands() {
    assert_eq!(runtime::add(-5, 3), -2);
    assert_eq!(runtime::add(i32::MAX, 0), i32::MAX);
}

#[test]
fn cdc_fib_function() {
    let result = runtime::cdcfib(14);
    assert_eq!(result, 377)
}

#[test]
fn recursive_fib_matches_fibonacci() {
    for n in 0..=25u32 {
        assert_eq!(runtime::recursive_fib(n), runtime::fibonacci(n), "n = {}", n);
    }
    assert_eq!(runtime::recursive_fib(0), 0);
    assert_eq!(runtime::recursive_fib(1), 1);
    assert_eq!(runtime::recursive_fib(20), 6765);
}
