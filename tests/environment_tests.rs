use khukuri::environment::Environment;

#[test]
fn test_define_and_get_variable() {
    let mut env = Environment::<f64>::new();
    env.define("x".to_string(), 42.0);
    assert_eq!(env.get("x").copied(), Some(42.0));
}

#[test]
fn test_undefined_variable() {
    let env = Environment::<f64>::new();
    assert_eq!(env.get("undefined").copied(), None);
}

#[test]
fn test_set_existing_variable() {
    let mut env = Environment::<f64>::new();
    env.define("x".to_string(), 10.0);
    let result = env.set("x", 20.0);
    assert!(result.is_ok());
    assert_eq!(env.get("x").copied(), Some(20.0));
}

#[test]
fn test_set_undefined_variable() {
    let mut env = Environment::<f64>::new();
    let result = env.set("x", 10.0);
    assert!(result.is_err());
    assert!(result.unwrap_err().contains("Undefined variable"));
}

#[test]
fn test_nested_scopes() {
    let mut env = Environment::<f64>::new();
    env.define("x".to_string(), 1.0);

    env.push_scope();
    env.define("y".to_string(), 2.0);

    // Both variables should be accessible
    assert_eq!(env.get("x").copied(), Some(1.0));
    assert_eq!(env.get("y").copied(), Some(2.0));

    env.pop_scope();

    // Only x should be accessible now
    assert_eq!(env.get("x").copied(), Some(1.0));
    assert_eq!(env.get("y").copied(), None);
}

#[test]
fn test_variable_shadowing() {
    let mut env = Environment::<f64>::new();
    env.define("x".to_string(), 1.0);

    env.push_scope();
    env.define("x".to_string(), 2.0);

    // Inner scope shadows outer scope
    assert_eq!(env.get("x").copied(), Some(2.0));

    env.pop_scope();

    // Outer scope value restored
    assert_eq!(env.get("x").copied(), Some(1.0));
}

#[test]
fn test_set_in_nested_scope() {
    let mut env = Environment::<f64>::new();
    env.define("x".to_string(), 1.0);

    env.push_scope();
    let result = env.set("x", 2.0);
    assert!(result.is_ok());

    // Value should be updated
    assert_eq!(env.get("x").copied(), Some(2.0));

    env.pop_scope();

    // Value should still be updated in outer scope
    assert_eq!(env.get("x").copied(), Some(2.0));
}

#[test]
fn test_cannot_pop_global_scope() {
    let mut env = Environment::<f64>::new();
    assert_eq!(env.current_scope_size(), 1);

    env.pop_scope();

    // Should still have global scope
    assert_eq!(env.current_scope_size(), 1);
}

#[test]
fn test_multiple_scopes() {
    let mut env = Environment::<f64>::new();
    env.define("a".to_string(), 1.0);

    env.push_scope();
    env.define("b".to_string(), 2.0);

    env.push_scope();
    env.define("c".to_string(), 3.0);

    // All variables accessible
    assert_eq!(env.get("a").copied(), Some(1.0));
    assert_eq!(env.get("b").copied(), Some(2.0));
    assert_eq!(env.get("c").copied(), Some(3.0));

    env.pop_scope();

    // c is gone
    assert_eq!(env.get("c").copied(), None);
    assert_eq!(env.get("b").copied(), Some(2.0));

    env.pop_scope();

    // b is gone
    assert_eq!(env.get("b").copied(), None);
    assert_eq!(env.get("a").copied(), Some(1.0));
}
