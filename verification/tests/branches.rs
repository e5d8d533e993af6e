use learning_rust::branches::{gen_fib_number, MAX_FIB_INDEX};

fn by_definition(n: i32) -> i32 {
    if n <= 1 {
        n
    } else {
        by_definition(n - 1) + by_definition(n - 2)
    }
}

#[test]
fn first_fibonacci_numbers() {
    let expected = [0, 1, 1, 2, 3, 5, 8, 13, 21, 34, 55, 89, 144];
    for (n, value) in expected.iter().enumerate() {
        assert_eq!(gen_fib_number(n as i32), *value, "fib({})", n);
    }
}

#[test]
fn fibonacci_below_two_is_the_index_itself() {
    assert_eq!(gen_fib_number(1), 1);
    assert_eq!(gen_fib_number(0), 0);
    assert_eq!(gen_fib_number(-1), -1);
    assert_eq!(gen_fib_number(-5), -5);
    assert_eq!(gen_fib_number(i32::MIN), i32::MIN);
}

#[test]
fn fibonacci_follows_the_recurrence() {
    for n in 2..=MAX_FIB_INDEX {
        assert_eq!(gen_fib_number(n), gen_fib_number(n - 1) + gen_fib_number(n - 2));
    }
    for n in -3..=25 {
        assert_eq!(gen_fib_number(n), by_definition(n));
    }
}

#[test]
fn largest_fibonacci_number_that_fits() {
    assert_eq!(MAX_FIB_INDEX, 46);
    assert_eq!(gen_fib_number(45), 1134903170);
    assert_eq!(gen_fib_number(46), 1836311903);
    assert!(gen_fib_number(45).checked_add(gen_fib_number(46)).is_none());
}
