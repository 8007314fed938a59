use tram::executor::LocalStack;
use tram::value::Value;

fn chars(s: &str) -> Vec<char> {
    s.chars().collect()
}

#[test]
fn unbound_name_is_nil() {
    let s = LocalStack::new();
    assert_eq!(s.get(&chars("x")), Value::Nil);
    assert!(!s.is_bound(&chars("x")));
}

#[test]
fn set_then_get() {
    let mut s = LocalStack::new();
    s.set(&chars("x"), Value::Number(1));
    assert_eq!(s.get(&chars("x")), Value::Number(1));
    assert!(s.is_bound(&chars("x")));
}

#[test]
fn shadow_isolation_for_fresh_name() {
    // push(); set("x", 1); pop(): a name unbound before the push returns to
    // its pre-push value, Nil.
    let mut s = LocalStack::new();
    assert_eq!(s.get(&chars("x")), Value::Nil);
    s.push();
    s.set(&chars("x"), Value::Number(1));
    assert_eq!(s.get(&chars("x")), Value::Number(1));
    s.pop();
    assert_eq!(s.get(&chars("x")), Value::Nil);
}

#[test]
fn set_rebinds_enclosing_binding() {
    // A name bound in an enclosing (but not current) scope is mutated in
    // place rather than duplicated, so the change survives the pop.
    let mut s = LocalStack::new();
    s.set(&chars("x"), Value::Number(1));
    s.push();
    s.set(&chars("x"), Value::Number(2));
    assert_eq!(s.locals.len(), 1);
    s.pop();
    assert_eq!(s.get(&chars("x")), Value::Number(2));
}

#[test]
fn nearest_binding_wins() {
    let mut s = LocalStack::new();
    s.set(&chars("x"), Value::Number(1));
    s.push();
    // Force a second binding by binding a different name first, then
    // inspect resolution order via direct vector layout.
    s.set(&chars("y"), Value::Number(9));
    assert_eq!(s.get(&chars("x")), Value::Number(1));
    assert_eq!(s.get(&chars("y")), Value::Number(9));
    s.pop();
    assert_eq!(s.get(&chars("y")), Value::Nil);
    assert_eq!(s.get(&chars("x")), Value::Number(1));
}

#[test]
fn nested_scopes_balance() {
    let mut s = LocalStack::new();
    s.push();
    s.set(&chars("a"), Value::Number(1));
    s.push();
    s.set(&chars("b"), Value::Number(2));
    assert_eq!(s.get(&chars("a")), Value::Number(1));
    assert_eq!(s.get(&chars("b")), Value::Number(2));
    s.pop();
    assert_eq!(s.get(&chars("b")), Value::Nil);
    assert_eq!(s.get(&chars("a")), Value::Number(1));
    s.pop();
    assert_eq!(s.get(&chars("a")), Value::Nil);
}
