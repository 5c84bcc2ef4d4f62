use growbuf::tray::Tray;

use std::ops::Add;

#[test]
fn adds_two_numbers_using_the_add_method() {
    // We can use the `add()` method instead of the `+`, but we need to import the trait
    assert_eq!(10_i32.add(5), 15);
}

#[test]
fn adds_two_trays() {
    let a = Tray { quantity: 2 };
    let b = Tray { quantity: 5 };

    let result = a.add(b);
    assert_eq!(result, Tray { quantity: 7 });
}
