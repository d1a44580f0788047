use expr_lang::cli::{parse_args, parse_i64, Command};
use expr_lang::repl::{banner_lines, classify_input, ReplInput, VERSION};
use expr_lang::text::{push_decimal, space, trim_chars, utf8_width_of};

fn args(a: &[&str]) -> Vec<String> {
    a.iter().map(|s| s.to_string()).collect()
}

fn read_int(s: &str) -> Option<i64> {
    parse_i64(&s.chars().collect())
}

#[test]
fn test_args_default_is_unlimited_repl() {
    assert_eq!(parse_args(&args(&[])), Ok(Command::Repl { max_steps: -1 }));
}

#[test]
fn test_args_version_and_help() {
    assert_eq!(parse_args(&args(&["--version"])), Ok(Command::Version));
    assert_eq!(parse_args(&args(&["-V"])), Ok(Command::Version));
    assert_eq!(parse_args(&args(&["--help"])), Ok(Command::Help));
    assert_eq!(parse_args(&args(&["-h"])), Ok(Command::Help));
    assert_eq!(parse_args(&args(&["-h", "-V"])), Ok(Command::Version));
    assert_eq!(parse_args(&args(&["s.expr", "--help"])), Ok(Command::Help));
}

#[test]
fn test_args_script_with_steps() {
    assert_eq!(
        parse_args(&args(&["--max-steps", "10", "script.expr"])),
        Ok(Command::Script { path: "script.expr".to_string(), max_steps: 10 })
    );
    assert_eq!(
        parse_args(&args(&["-s", "50000", "s.expr"])),
        Ok(Command::Script { path: "s.expr".to_string(), max_steps: 50000 })
    );
    assert_eq!(
        parse_args(&args(&["--max-steps=10000", "s.expr"])),
        Ok(Command::Script { path: "s.expr".to_string(), max_steps: 10000 })
    );
    assert_eq!(parse_args(&args(&["-s", "-1"])), Ok(Command::Repl { max_steps: -1 }));
    assert_eq!(
        parse_args(&args(&["-"])),
        Ok(Command::Script { path: "-".to_string(), max_steps: -1 })
    );
}

#[test]
fn test_args_errors() {
    assert_eq!(
        parse_args(&args(&["--max-steps", "abc"])),
        Err("Invalid value for '--max-steps': 'abc' (expected an integer)".to_string())
    );
    assert_eq!(
        parse_args(&args(&["--max-steps"])),
        Err("Option '--max-steps' requires a value".to_string())
    );
    assert_eq!(parse_args(&args(&["-s"])), Err("Option '-s' requires a value".to_string()));
    assert_eq!(
        parse_args(&args(&["--max-steps=1x"])),
        Err("Invalid value for --max-steps: '1x' (expected an integer)".to_string())
    );
    assert_eq!(parse_args(&args(&["--fast"])), Err("Unknown option: --fast".to_string()));
    assert_eq!(
        parse_args(&args(&["a.expr", "b.expr"])),
        Err("Unexpected argument: b.expr".to_string())
    );
}

#[test]
fn test_parse_i64() {
    assert_eq!(read_int("0"), Some(0));
    assert_eq!(read_int("42"), Some(42));
    assert_eq!(read_int("+7"), Some(7));
    assert_eq!(read_int("-1"), Some(-1));
    assert_eq!(read_int("007"), Some(7));
    assert_eq!(read_int("9223372036854775807"), Some(i64::MAX));
    assert_eq!(read_int("-9223372036854775808"), Some(i64::MIN));
    assert_eq!(read_int("9223372036854775808"), None);
    assert_eq!(read_int("-9223372036854775809"), None);
    assert_eq!(read_int("99999999999999999999999"), None);
    assert_eq!(read_int(""), None);
    assert_eq!(read_int("-"), None);
    assert_eq!(read_int("+"), None);
    assert_eq!(read_int("1 "), None);
    assert_eq!(read_int("abc"), None);
    for s in ["0", "12", "-12", "+3", "-0", "x", "", "9223372036854775808", "1e3"] {
        assert_eq!(read_int(s), s.parse::<i64>().ok());
    }
}

#[test]
fn test_repl_input_classification() {
    assert_eq!(classify_input("exit\n"), ReplInput::Exit);
    assert_eq!(classify_input("  quit  "), ReplInput::Exit);
    assert_eq!(classify_input("   \n"), ReplInput::Blank);
    assert_eq!(classify_input(""), ReplInput::Blank);
    assert_eq!(classify_input("  3 + 4\r\n"), ReplInput::Source("3 + 4".to_string()));
    assert_eq!(classify_input("exit now"), ReplInput::Source("exit now".to_string()));
    assert_eq!(classify_input("\u{3000}x\u{a0}"), ReplInput::Source("x".to_string()));
}

#[test]
fn test_repl_banner() {
    let lines = banner_lines(-1);
    assert_eq!(lines.len(), 6);
    assert_eq!(lines[0], format!("ExprLang v{} (Rust Math Expression Language)", VERSION));
    assert!(lines[0].contains("ExprLang v"));
    assert!(lines[1].contains("Supported:"));
    assert_eq!(lines[3], "Step limit: unlimited");
    assert_eq!(lines[4], "Type 'exit' or 'quit' to exit.");
    assert_eq!(lines[5], "");
    assert_eq!(banner_lines(100000)[3], "Step limit: 100000");
    assert_eq!(banner_lines(0)[3], "Step limit: unlimited");
}

#[test]
fn test_decimal_notation() {
    for n in [0u64, 7, 10, 99, 100, 12345, u64::MAX] {
        let mut s = String::from("n=");
        push_decimal(&mut s, n);
        assert_eq!(s, format!("n={}", n));
    }
}

#[test]
fn test_trim_matches_str_trim() {
    for s in ["", "  a b  ", "\t\nx\r\n", "\u{2003}y\u{2003}", "none"] {
        let t: String = trim_chars(&s.chars().collect()).into_iter().collect();
        assert_eq!(t, s.trim());
    }
}

#[test]
fn test_space_is_unicode_white_space() {
    for c in (0u32..=0x10FFFF).filter_map(char::from_u32) {
        assert_eq!(space(c), c.is_whitespace(), "{:?}", c);
        assert_eq!(utf8_width_of(c), c.len_utf8(), "{:?}", c);
    }
}
