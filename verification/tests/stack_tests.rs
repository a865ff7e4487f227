use stackscript::stack::{FValue, Stack};

#[test]
fn push_and_pop_keep_order() {
    let mut s = Stack::new();
    s.push_int(1);
    s.push_str("two".to_string());
    s.push(FValue::Int(3));
    assert_eq!(s.len(), 3);
    assert_eq!(s.pop(), FValue::Int(3));
    assert_eq!(s.pop(), FValue::Str("two".to_string()));
    assert_eq!(s.pop(), FValue::Int(1));
    assert_eq!(s.len(), 0);
}

#[test]
fn pop_int_takes_integers_only() {
    let mut s = Stack::new();
    s.push_int(7);
    assert_eq!(s.pop_int(), Some(7));
    // an empty stack has nothing to pop
    assert_eq!(s.pop_int(), None);
    // a text on top is popped but yields no integer
    s.push_str("seven".to_string());
    assert_eq!(s.pop_int(), None);
    assert_eq!(s.len(), 0);
}

#[test]
fn peek_reads_from_the_top_down() {
    let mut s = Stack::new();
    s.push_int(1);
    s.push_int(2);
    assert_eq!(*s.peek(0), FValue::Int(2));
    assert_eq!(*s.peek(1), FValue::Int(1));
    assert_eq!(s.len(), 2);
}

#[test]
fn op2_to_1_combines_the_top_two_integers() {
    let mut s = Stack::new();
    s.push_int(10);
    s.push_int(3);
    s.op2_to_1(|a, b| a - b);
    assert_eq!(s.len(), 1);
    assert_eq!(s.pop(), FValue::Int(7));
}

#[test]
fn values_render_as_print_shows_them() {
    assert_eq!(FValue::Int(0).to_string(), "0");
    assert_eq!(FValue::Int(-42).to_string(), "-42");
    assert_eq!(FValue::Int(i32::MIN).to_string(), "-2147483648");
    assert_eq!(FValue::Str("verbatim".to_string()).to_string(), "verbatim");
}
