use expr_lang::error::{ControlFlowKind, ExprLangError, Position};

#[test]
fn test_position_new() {
    let p = Position::new(3, 7, 42);
    assert_eq!((p.line, p.column, p.offset), (3, 7, 42));
}

#[test]
fn test_syntax_error_display() {
    let e = ExprLangError::Syntax {
        message: "Expected ')'".to_string(),
        pos: Position::new(2, 5, 12),
        snippet: "(1 + 2".to_string(),
    };
    assert_eq!(e.to_string(), "SyntaxError at line 2, column 5:\n  (1 + 2\n      ^ Expected ')'");
    let first = ExprLangError::Syntax {
        message: "bad".to_string(),
        pos: Position::new(1, 1, 0),
        snippet: "?".to_string(),
    };
    assert_eq!(first.to_string(), "SyntaxError at line 1, column 1:\n  ?\n  ^ bad");
}

#[test]
fn test_type_and_runtime_error_display() {
    let t = ExprLangError::TypeError {
        message: "- requires numbers".to_string(),
        pos: Position::new(10, 120, 999),
    };
    assert_eq!(t.to_string(), "TypeError at line 10, column 120: - requires numbers");
    let r = ExprLangError::RuntimeError {
        message: "Division by zero".to_string(),
        pos: Some(Position::new(1, 3, 2)),
    };
    assert_eq!(r.to_string(), "RuntimeError at line 1, column 3: Division by zero");
    let r2 = ExprLangError::RuntimeError { message: "Division by zero".to_string(), pos: None };
    assert_eq!(r2.to_string(), "RuntimeError: Division by zero");
}

#[test]
fn test_control_flow_display() {
    let b = ExprLangError::ControlFlow { kind: ControlFlowKind::Break };
    assert_eq!(b.to_string(), "ControlFlow: Break");
    let c = ExprLangError::ControlFlow { kind: ControlFlowKind::Continue };
    assert_eq!(c.to_string(), "ControlFlow: Continue");
    assert_ne!(ControlFlowKind::Break, ControlFlowKind::Continue);
}

#[test]
fn test_error_into_string() {
    let e = ExprLangError::RuntimeError { message: "Division by zero".to_string(), pos: None };
    let s: String = String::from(e.clone());
    assert_eq!(s, "RuntimeError: Division by zero");
    let t: String = ExprLangError::ControlFlow { kind: ControlFlowKind::Break }.into();
    assert_eq!(t, "ControlFlow: Break");
}

#[test]
fn test_syntax_error_column_zero() {
    let e = ExprLangError::Syntax {
        message: "bad".to_string(),
        pos: Position::new(1, 0, 0),
        snippet: "?".to_string(),
    };
    assert_eq!(e.to_string(), "SyntaxError at line 1, column 0:\n  ?\n  ^ bad");
}
