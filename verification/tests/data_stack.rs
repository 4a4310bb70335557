use bite::data_stack::Stack;

#[test]
fn push_and_pop_values() {
    let mut s = Stack::new();
    s.push_int(42);
    s.push_str("17".to_string());
    s.push_bool(true);
    assert_eq!(s.pop_bool(false), true);
    assert_eq!(s.pop_int(0), 17);
    assert_eq!(s.pop_str("none"), "42");
    // The stack is empty now: the defaults come back
    assert_eq!(s.pop_bool(true), true);
    assert_eq!(s.pop_int(-5), -5);
    assert_eq!(s.pop_str("none"), "none");
}

#[test]
fn conversions_of_values() {
    let mut s = Stack::new();
    s.push_str("yes".to_string());
    assert_eq!(s.pop_bool(false), true);
    s.push_str("no".to_string());
    assert_eq!(s.pop_bool(true), false);
    s.push_int(0);
    assert_eq!(s.pop_bool(true), false);
    s.push_bool(true);
    assert_eq!(s.pop_int(7), 1);
    s.push_str("x1".to_string());
    assert_eq!(s.pop_int(7), 7);
    s.push_bool(false);
    assert_eq!(s.pop_str(""), "false");
    s.push_int(-2147483648);
    assert_eq!(s.pop_str(""), "-2147483648");
}
