use expr_lang::ast::Expr;
use expr_lang::evaluator::{
    check_arity, check_index, check_slice, factorial, get_builtin, BuiltinFunc, Evaluator,
};
use expr_lang::parser::parse_source;

#[test]
fn test_persistent_function_table() {
    let mut ev = Evaluator::new();
    let square = "square".to_string();
    assert!(ev.function(&square).is_none());
    let body = parse_source("x * x").unwrap();
    ev.define_function(square.clone(), vec!["x".to_string()], body.clone());
    let f = ev.function(&square).unwrap();
    assert_eq!(f.name, "square");
    assert_eq!(f.params, vec!["x".to_string()]);
    assert_eq!(f.body, body);
    assert!(ev.function(&"cube".to_string()).is_none());
}

#[test]
fn test_redefinition_replaces() {
    let mut ev = Evaluator::new();
    let f = "f".to_string();
    let g = "g".to_string();
    ev.define_function(f.clone(), vec![], Expr::Number("1".to_string()));
    ev.define_function(g.clone(), vec!["a".to_string()], Expr::Number("2".to_string()));
    ev.define_function(f.clone(), vec!["b".to_string()], Expr::Number("3".to_string()));
    let found = ev.function(&f).unwrap();
    assert_eq!(found.params, vec!["b".to_string()]);
    assert_eq!(found.body, Expr::Number("3".to_string()));
    let other = ev.function(&g).unwrap();
    assert_eq!(other.params, vec!["a".to_string()]);
    assert_eq!(other.body, Expr::Number("2".to_string()));
}

#[test]
fn test_step_limit_exceeded() {
    let mut ev = Evaluator::with_max_steps(3);
    assert_eq!(ev.max_steps(), 3);
    assert_eq!(ev.step_count(), 0);
    assert!(ev.tick().is_ok());
    assert!(ev.tick().is_ok());
    assert!(ev.tick().is_ok());
    assert_eq!(ev.step_count(), 3);
    assert_eq!(ev.tick(), Err("Step limit exceeded (max: 3)".to_string()));
    assert_eq!(ev.step_count(), 4);
}

#[test]
fn test_reset_steps_gives_fresh_budget() {
    let mut ev = Evaluator::with_max_steps(1);
    assert!(ev.tick().is_ok());
    assert!(ev.tick().is_err());
    ev.reset_steps();
    assert_eq!(ev.step_count(), 0);
    assert!(ev.tick().is_ok());
    assert_eq!(ev.max_steps(), 1);
}

#[test]
fn test_unlimited_steps() {
    let mut ev = Evaluator::new();
    assert_eq!(ev.max_steps(), -1);
    for _ in 0..10_000 {
        assert!(ev.tick().is_ok());
    }
    assert_eq!(ev.step_count(), 10_000);
    let mut zero = Evaluator::with_max_steps(0);
    for _ in 0..100 {
        assert!(zero.tick().is_ok());
    }
}

#[test]
fn test_set_max_steps() {
    let mut ev = Evaluator::new();
    assert!(ev.tick().is_ok());
    assert!(ev.tick().is_ok());
    ev.set_max_steps(2);
    assert_eq!(ev.step_count(), 2);
    assert_eq!(ev.tick(), Err("Step limit exceeded (max: 2)".to_string()));
    ev.set_max_steps(100000);
    assert!(ev.tick().is_ok());
    ev.set_max_steps(4);
    assert_eq!(ev.tick(), Err("Step limit exceeded (max: 4)".to_string()));
}

#[test]
fn test_builtin_names() {
    assert_eq!(get_builtin("sin"), Some(BuiltinFunc::Sin));
    assert_eq!(get_builtin("atan2"), Some(BuiltinFunc::Atan2));
    assert_eq!(get_builtin("log10"), Some(BuiltinFunc::Log10));
    assert_eq!(get_builtin("log2"), Some(BuiltinFunc::Log2));
    assert_eq!(get_builtin("log"), Some(BuiltinFunc::Log));
    assert_eq!(get_builtin("is_even"), Some(BuiltinFunc::IsEven));
    assert_eq!(get_builtin("is_odd"), Some(BuiltinFunc::IsOdd));
    assert_eq!(get_builtin("factorial"), Some(BuiltinFunc::Factorial));
    assert_eq!(get_builtin("rad"), Some(BuiltinFunc::Rad));
    assert_eq!(get_builtin("concat"), Some(BuiltinFunc::Concat));
    assert_eq!(get_builtin("foo"), None);
    assert_eq!(get_builtin("Sin"), None);
    assert_eq!(get_builtin("sinh"), None);
    assert_eq!(get_builtin(""), None);
}

#[test]
fn test_factorial_values() {
    assert_eq!(factorial(0), Ok(1));
    assert_eq!(factorial(1), Ok(1));
    assert_eq!(factorial(5), Ok(120));
    assert_eq!(factorial(6), Ok(720));
    assert_eq!(factorial(20), Ok(2432902008176640000));
    assert_eq!(factorial(21), Err("factorial too large (max 20)".to_string()));
    assert_eq!(factorial(u64::MAX), Err("factorial too large (max 20)".to_string()));
}

#[test]
fn test_index_and_slice_checks() {
    assert!(check_index(3, 2).is_ok());
    assert_eq!(check_index(3, 5), Err("Index out of bounds: 5".to_string()));
    assert_eq!(check_index(0, 0), Err("Index out of bounds: 0".to_string()));
    assert!(check_slice(5, 1, 4).is_ok());
    assert!(check_slice(3, 0, 3).is_ok());
    assert!(check_slice(3, 3, 3).is_ok());
    assert_eq!(check_slice(3, 3, 5), Err("Invalid slice bounds".to_string()));
    assert_eq!(check_slice(3, 2, 1), Err("Invalid slice bounds".to_string()));
}

#[test]
fn test_arity_check() {
    assert!(check_arity(&"f".to_string(), 2, 2).is_ok());
    assert_eq!(
        check_arity(&"square".to_string(), 1, 3),
        Err("Function square expects 1 arguments, got 3".to_string())
    );
}
