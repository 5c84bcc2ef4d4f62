use growbuf::fib::fib;

#[test]
fn first_fibonacci_number_is_0() {
    let result: i32 = fib(0);
    assert_eq!(result, 0);
}

#[test]
fn second_fibonacci_number_is_1() {
    let result: i32 = fib(1);
    assert_eq!(result, 1);
}

#[test]
fn tenth_fibonacci_number_is_55() {
    let result: i32 = fib(10);
    assert_eq!(result, 55);
}

#[test]
fn third_fibonacci_number_is_1() {
    let result: i32 = fib(2);
    assert_eq!(result, 1);
}
