use rslox::environment::Environment;
use rslox::expression::LiteralValue;
use rslox::interpreter::RuntimeError;

#[test]
fn test_define() {
    let number_val = 3.14;
    let expected_value = LiteralValue::Number(f64::to_bits(number_val));
    let mut env = Environment::new(None);

    env.define("pi", Some(expected_value.clone()));
    assert_eq!(env.get("pi"), Ok(expected_value));
}

#[test]
fn test_define_enclosed() {
    let expected_value = LiteralValue::Number(f64::to_bits(3.14));
    let mut enclosed_env = Box::new(Environment::new(None));
    enclosed_env.define("pi", Some(expected_value.clone()));

    let env = Environment::new(Some(enclosed_env));
    assert_eq!(env.get("pi"), Ok(expected_value));
}

#[test]
fn test_define_enclosed_no_value() {
    let expected_value = LiteralValue::Number(f64::to_bits(3.14));
    let enclosed_env = Box::new(Environment::new(None));

    let mut env = Environment::new(Some(enclosed_env));

    env.define("pi", Some(expected_value.clone()));
    assert_eq!(env.get("pi"), Ok(expected_value));

    let enclosed_env = env.into_enclosing().unwrap();

    let enclosed_env_value = enclosed_env.get("pi");
    assert!(enclosed_env_value.is_err());
    assert!(matches!(
        enclosed_env_value,
        Err(RuntimeError::UndefinedVariable { .. })
    ));
}

#[test]
fn test_define_enclosed_with_shadowing() {
    let shadowed_value = LiteralValue::Number(f64::to_bits(3.14));
    let mut enclosed_env = Box::new(Environment::new(None));

    enclosed_env.define("pi", Some(shadowed_value.clone()));

    let new_value = LiteralValue::Number(f64::to_bits(10.0));

    let mut env = Environment::new(Some(enclosed_env));
    env.define("pi", Some(new_value.clone()));
    assert_eq!(env.get("pi"), Ok(new_value));

    let enclosed_env = env.into_enclosing().unwrap();
    assert_eq!(enclosed_env.get("pi"), Ok(shadowed_value));
}

#[test]
fn test_assign() {
    let number_val = 3.147;
    let expected_value = LiteralValue::Number(f64::to_bits(number_val));

    let mut env = Environment::new(None);

    env.define("pi", Some(LiteralValue::Number(f64::to_bits(3.14))));
    assert_eq!(env.assign("pi", expected_value.clone()), Ok(()));

    assert_eq!(env.get("pi"), Ok(expected_value));
}

#[test]
fn test_assign_no_value() {
    let number_val = 3.147;
    let expected_value = LiteralValue::Number(f64::to_bits(number_val));

    let mut env = Environment::new(None);

    env.define("pi", Some(expected_value));
    let result = env.assign("tau", LiteralValue::Number(f64::to_bits(6.28)));
    assert_eq!(
        result,
        Err(RuntimeError::UndefinedVariable { name: String::from("tau") })
    );
}

#[test]
fn test_assign_enclosed() {
    let shadowed_value = LiteralValue::Number(f64::to_bits(3.14));
    let mut enclosed_env = Box::new(Environment::new(None));

    enclosed_env.define("pi", Some(shadowed_value.clone()));

    let new_value = LiteralValue::Number(f64::to_bits(10.0));

    let mut env = Environment::new(Some(enclosed_env));
    assert_eq!(env.assign("pi", new_value.clone()), Ok(()));

    assert_eq!(env.get("pi"), Ok(new_value));
}

#[test]
fn test_assign_enclosed_with_shadowing() {
    let shadowed_value = LiteralValue::Number(f64::to_bits(3.14));
    let mut enclosed_env = Box::new(Environment::new(None));

    enclosed_env.define("pi", Some(shadowed_value.clone()));

    let new_value = LiteralValue::Number(f64::to_bits(10.0));

    let mut env = Environment::new(Some(enclosed_env));
    env.define("pi", Some(shadowed_value.clone()));
    assert_eq!(env.assign("pi", new_value.clone()), Ok(()));

    assert_eq!(env.get("pi"), Ok(new_value));
}

#[test]
fn test_assign_to_enclosing_mutates_enclosing_only() {
    // Assigning to a name defined only in an enclosing scope mutates that
    // enclosing scope's binding, observed by reading from both scopes.
    let outer_value = LiteralValue::Number(f64::to_bits(1.0));
    let new_value = LiteralValue::Number(f64::to_bits(2.0));

    let mut outer = Box::new(Environment::new(None));
    outer.define("x", Some(outer_value));

    let mut inner = Environment::new(Some(outer));
    assert_eq!(inner.assign("x", new_value.clone()), Ok(()));
    assert_eq!(inner.get("x"), Ok(new_value.clone()));

    let outer = inner.into_enclosing().unwrap();
    assert_eq!(outer.get("x"), Ok(new_value));
}

#[test]
fn test_get_uninitialized_is_distinct_error() {
    let mut env = Environment::new(None);
    env.define("x", None);
    assert_eq!(
        env.get("x"),
        Err(RuntimeError::UninitializedVariable { name: String::from("x") })
    );
    assert_eq!(
        env.get("y"),
        Err(RuntimeError::UndefinedVariable { name: String::from("y") })
    );
}

#[test]
fn test_assign_initializes_uninitialized_binding() {
    let mut env = Environment::new(None);
    env.define("x", None);
    let value = LiteralValue::Boolean(true);
    assert_eq!(env.assign("x", value.clone()), Ok(()));
    assert_eq!(env.get("x"), Ok(value));
}
