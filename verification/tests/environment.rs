use rs_eval::Environment;
use rs_eval::Number;

fn key(text: &str) -> String {
    String::from(text)
}

#[test]
fn a_new_environment_defines_nothing() {
    let env = Environment::new();
    assert_eq!(env.constant(&key("pi")), None);
    assert_eq!(env.arity(&key("sqrt")), None);
}

#[test]
fn a_definition_is_found_again() {
    let mut env = Environment::new();
    env.define_constant("tau", Number::from_bits(7));
    env.define_function("hypot", 2);
    assert_eq!(env.constant(&key("tau")), Some(Number::from_bits(7)));
    assert_eq!(env.arity(&key("hypot")), Some(2));
    assert_eq!(env.constant(&key("hypot")), None);
    assert_eq!(env.arity(&key("tau")), None);
    assert_eq!(env.constant(&key("ta")), None);
    assert_eq!(env.constant(&key("tau ")), None);
}

#[test]
fn a_later_definition_replaces_an_earlier_one() {
    let mut env = Environment::new();
    env.define_constant("x", Number::from_bits(1));
    env.define_constant("y", Number::from_bits(2));
    env.define_constant("x", Number::from_bits(3));
    assert_eq!(env.constant(&key("x")), Some(Number::from_bits(3)));
    assert_eq!(env.constant(&key("y")), Some(Number::from_bits(2)));
    env.define_function("f", 1);
    env.define_function("f", 4);
    assert_eq!(env.arity(&key("f")), Some(4));
}

#[test]
fn constants_and_functions_have_separate_names() {
    let mut env = Environment::new();
    env.define_constant("f", Number::from_bits(9));
    env.define_function("f", 2);
    assert_eq!(env.constant(&key("f")), Some(Number::from_bits(9)));
    assert_eq!(env.arity(&key("f")), Some(2));
}

#[test]
fn the_standard_constants_are_the_nearest_doubles() {
    let env = Environment::standard();
    assert_eq!(
        env.constant(&key("pi")).map(|n| f64::from_bits(n.to_bits())),
        Some(std::f64::consts::PI)
    );
    assert_eq!(
        env.constant(&key("e")).map(|n| f64::from_bits(n.to_bits())),
        Some(std::f64::consts::E)
    );
    assert_eq!(env.constant(&key("tau")), None);
}

#[test]
fn the_standard_functions_and_their_arities() {
    let env = Environment::standard();
    let unary = [
        "sqrt", "abs", "exp", "ln", "sin", "cos", "tan", "asin", "acos", "atan", "sinh", "cosh",
        "tanh", "asinh", "acosh", "atanh", "floor", "ceil", "round", "signum",
    ];
    for f in unary {
        assert_eq!(env.arity(&key(f)), Some(1), "{}", f);
    }
    for f in ["atan2", "max", "min"] {
        assert_eq!(env.arity(&key(f)), Some(2), "{}", f);
    }
    assert_eq!(env.arity(&key("log")), None);
    assert_eq!(env.arity(&key("pi")), None);
}
