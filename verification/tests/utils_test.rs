use fibonacci_cli::utils::{
    fibonacci, fibonacci_checked, fibonacci_matrix, fibonacci_memoized, fibonacci_sequence,
    fibonacci_sequence_checked,
};

#[test]
fn test_fibonacci() {
    assert_eq!(fibonacci(0), 0);
    assert_eq!(fibonacci(1), 1);
    assert_eq!(fibonacci(10), 55);
    assert_eq!(fibonacci(20), 6765);
    assert_eq!(fibonacci(93), 12200160415121876738);
}

#[test]
fn test_fibonacci_sequence() {
    assert_eq!(fibonacci_sequence(0), Vec::<u64>::new());
    assert_eq!(fibonacci_sequence(7), vec![0, 1, 1, 2, 3, 5, 8]);
    assert_eq!(fibonacci_sequence(10), vec![0, 1, 1, 2, 3, 5, 8, 13, 21, 34]);
}

#[test]
fn sequence_up_to_the_largest_fitting_index() {
    let s = fibonacci_sequence(94);
    assert_eq!(s.len(), 94);
    assert_eq!(s[93], 12200160415121876738);
    assert_eq!(s[50], 12586269025);
}

#[test]
fn checked_boundary_values() {
    assert_eq!(fibonacci_checked(0), Some(0));
    assert_eq!(fibonacci_checked(1), Some(1));
    assert_eq!(fibonacci_checked(2), Some(1));
    assert_eq!(fibonacci_checked(50), Some(12586269025));
    assert_eq!(fibonacci_checked(93), Some(12200160415121876738));
    assert_eq!(fibonacci_checked(94), None);
    assert_eq!(fibonacci_checked(100), None);
    assert_eq!(fibonacci_checked(u32::MAX), None);
}

#[test]
fn sequence_checked_boundary_values() {
    assert_eq!(fibonacci_sequence_checked(0), Some(vec![]));
    assert_eq!(fibonacci_sequence_checked(1), Some(vec![0]));
    assert_eq!(
        fibonacci_sequence_checked(10),
        Some(vec![0, 1, 1, 2, 3, 5, 8, 13, 21, 34])
    );
    let s = fibonacci_sequence_checked(94).unwrap();
    assert_eq!(s.len(), 94);
    assert_eq!(s[93], 12200160415121876738);
    assert_eq!(fibonacci_sequence_checked(95), None);
}

#[test]
fn three_algorithms_agree_on_every_index() {
    for n in 0..=120u32 {
        let expected = if n <= 93 { Some(fibonacci(n)) } else { None };
        assert_eq!(fibonacci_checked(n), expected, "checked, n = {n}");
        assert_eq!(fibonacci_memoized(n), expected, "memoized, n = {n}");
        assert_eq!(fibonacci_matrix(n), expected, "matrix, n = {n}");
    }
}

#[test]
fn matrix_and_memoized_known_values() {
    assert_eq!(fibonacci_matrix(0), Some(0));
    assert_eq!(fibonacci_matrix(1), Some(1));
    assert_eq!(fibonacci_matrix(2), Some(1));
    assert_eq!(fibonacci_matrix(64), Some(10610209857723));
    assert_eq!(fibonacci_matrix(93), Some(12200160415121876738));
    assert_eq!(fibonacci_matrix(94), None);
    assert_eq!(fibonacci_memoized(20), Some(6765));
    assert_eq!(fibonacci_memoized(93), Some(12200160415121876738));
    assert_eq!(fibonacci_memoized(94), None);
}
