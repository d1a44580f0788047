//! The decisions of the interactive REPL.
//!
//! The loop that reads lines and prints results runs outside the library;
//! here are what it shows first and what it makes of each line it reads.

use vstd::prelude::*;
use crate::text::{decimal, push_decimal, chars_of, string_of, trim_chars, trimmed};

verus! {

/// The current version of ExprLang.
pub const VERSION: &'static str = "0.3.1";

/// What the REPL does with a line of input.
#[derive(Debug, PartialEq)]
pub enum ReplInput {
    /// `exit` or `quit`: leave the REPL.
    Exit,
    /// Nothing but whitespace: prompt again.
    Blank,
    /// Source text to evaluate (the line without surrounding whitespace).
    Source(String),
}

/// The command that ends the REPL.
pub open spec fn is_exit_command(t: Seq<char>) -> bool {
    t == seq!['e', 'x', 'i', 't'] || t == seq!['q', 'u', 'i', 't']
}

/// What the REPL makes of `line`.
pub open spec fn input_kind(line: Seq<char>) -> Option<Seq<char>> {
    if is_exit_command(trimmed(line)) || trimmed(line).len() == 0 {
        None
    } else {
        Some(trimmed(line))
    }
}

/// Classifies a line read by the REPL: an exit command, a blank line, or
/// source text (trimmed) to evaluate.
pub fn classify_input(line: &str) -> (r: ReplInput)
    ensures
        is_exit_command(trimmed(line@)) ==> r == ReplInput::Exit,
        trimmed(line@).len() == 0 ==> r == ReplInput::Blank,
        !is_exit_command(trimmed(line@)) && trimmed(line@).len() > 0 ==> (r matches ReplInput::Source(
            t,
        ) && t@ == trimmed(line@)),
{
    let chars = chars_of(line);
    let t = trim_chars(&chars);
    if crate::text::spells(&t, &['e', 'x', 'i', 't']) || crate::text::spells(&t, &['q', 'u', 'i', 't']) {
        ReplInput::Exit
    } else if t.len() == 0 {
        ReplInput::Blank
    } else {
        ReplInput::Source(string_of(&t))
    }
}

/// The lines the REPL prints when it starts, for the step limit `max_steps`.
pub open spec fn banner(max_steps: int) -> Seq<Seq<char>> {
    seq![
        "ExprLang v"@ + VERSION@ + " (Rust Math Expression Language)"@,
        "Supported: arithmetic, comparisons, logic (&&, ||, !),"@,
        "strings, arrays, indexing, slicing, functions, loops, conditions."@,
        if max_steps > 0 {
            "Step limit: "@ + decimal(max_steps as nat)
        } else {
            "Step limit: unlimited"@
        },
        "Type 'exit' or 'quit' to exit."@,
        Seq::<char>::empty(),
    ]
}

/// The lines the REPL prints when it starts.
pub fn banner_lines(max_steps: i64) -> (r: Vec<String>)
    ensures
        r@.map_values(|l: String| l@) == banner(max_steps as int),
{
    let mut r: Vec<String> = Vec::new();
    let mut first = String::from_str("ExprLang v");
    first.append(VERSION);
    first.append(" (Rust Math Expression Language)");
    r.push(first);
    r.push(String::from_str("Supported: arithmetic, comparisons, logic (&&, ||, !),"));
    r.push(String::from_str("strings, arrays, indexing, slicing, functions, loops, conditions."));
    if max_steps > 0 {
        let mut l = String::from_str("Step limit: ");
        push_decimal(&mut l, max_steps as u64);
        r.push(l);
    } else {
        r.push(String::from_str("Step limit: unlimited"));
    }
    r.push(String::from_str("Type 'exit' or 'quit' to exit."));
    r.push(String::new());
    assert(r@.map_values(|l: String| l@) =~= banner(max_steps as int));
    r
}

} // verus!
