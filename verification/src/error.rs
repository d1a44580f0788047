//! Error types and reporting for ExprLang.
//!
//! Errors carry position information; [`ExprLangError::to_string`] renders
//! them the way the interpreter reports them, a syntax error with the line of
//! source and a caret under the offending column.

use vstd::prelude::*;
use crate::text::{decimal, push_decimal, push_char};

verus! {

/// A position in source code.
#[derive(Debug, Clone)]
pub struct Position {
    /// Line number (1-based).
    pub line: usize,
    /// Column number (1-based).
    pub column: usize,
    /// Byte offset from the start of the input.
    pub offset: usize,
}

impl Position {
    /// Creates a new position.
    pub fn new(line: usize, column: usize, offset: usize) -> (p: Self)
        ensures
            p.line == line,
            p.column == column,
            p.offset == offset,
    {
        Position { line, column, offset }
    }
}

/// Control flow signals for loop management.
#[derive(Debug, Clone, Copy, PartialEq, Eq, Structural)]
pub enum ControlFlowKind {
    /// Exit the innermost loop.
    Break,
    /// Skip to the next iteration.
    Continue,
}

/// All errors that can occur while running ExprLang code.
#[derive(Debug, Clone)]
pub enum ExprLangError {
    /// A syntax error with position and the source line it occurred on.
    Syntax { message: String, pos: Position, snippet: String },
    /// A type error with position.
    TypeError { message: String, pos: Position },
    /// A runtime error with an optional position.
    RuntimeError { message: String, pos: Option<Position> },
    /// Internal control flow signal for break/continue.
    ControlFlow { kind: ControlFlowKind },
}

/// `n` spaces.
pub open spec fn spaces(n: nat) -> Seq<char> {
    Seq::new(n, |i: int| ' ')
}

/// The spaces before a caret under `column` (counted from 1; a column of 0
/// is shown like column 1).
pub open spec fn caret_indent(column: nat) -> nat {
    if column >= 1 {
        (column - 1) as nat
    } else {
        0
    }
}

/// `"line L, column C"` for a position.
pub open spec fn line_column(pos: Position) -> Seq<char> {
    "line "@ + decimal(pos.line as nat) + ", column "@ + decimal(pos.column as nat)
}

/// How an error is displayed.
///
/// A syntax error takes three lines: the position, the source line indented
/// by two spaces, and a caret under the column followed by the message.
/// Type and runtime errors take one line; a runtime error without a position
/// shows only its message.
pub open spec fn error_text(e: ExprLangError) -> Seq<char> {
    match e {
        ExprLangError::Syntax { message, pos, snippet } => "SyntaxError at "@ + line_column(pos)
            + ":\n"@ + "  "@ + snippet@ + "\n"@ + "  "@ + spaces(caret_indent(pos.column as nat)) + "^ "@
            + message@,
        ExprLangError::TypeError { message, pos } => "TypeError at "@ + line_column(pos) + ": "@
            + message@,
        ExprLangError::RuntimeError { message, pos } => match pos {
            Some(p) => "RuntimeError at "@ + line_column(p) + ": "@ + message@,
            None => "RuntimeError: "@ + message@,
        },
        ExprLangError::ControlFlow { kind } => match kind {
            ControlFlowKind::Break => "ControlFlow: Break"@,
            ControlFlowKind::Continue => "ControlFlow: Continue"@,
        },
    }
}

/// Appends `"line L, column C"` to `s`.
fn push_line_column(s: &mut String, pos: &Position)
    ensures
        final(s)@ == old(s)@ + line_column(*pos),
{
    s.append("line ");
    push_decimal(s, pos.line as u64);
    s.append(", column ");
    push_decimal(s, pos.column as u64);
}

impl ExprLangError {
    /// The error as it is displayed to the user.
    pub fn to_string(&self) -> (r: String)
        ensures
            r@ == error_text(*self),
    {
        let mut r = String::new();
        match self {
            ExprLangError::Syntax { message, pos, snippet } => {
                r.append("SyntaxError at ");
                push_line_column(&mut r, pos);
                r.append(":\n");
                r.append("  ");
                r.append(snippet.as_str());
                r.append("\n");
                r.append("  ");
                let n = if pos.column >= 1 {
                    pos.column - 1
                } else {
                    0
                };
                let ghost before = r@;
                for i in 0..n
                    invariant
                        r@ == before + spaces(i as nat),
                {
                    push_char(&mut r, ' ');
                    assert(spaces(i as nat).push(' ') == spaces((i + 1) as nat));
                }
                r.append("^ ");
                r.append(message.as_str());
            },
            ExprLangError::TypeError { message, pos } => {
                r.append("TypeError at ");
                push_line_column(&mut r, pos);
                r.append(": ");
                r.append(message.as_str());
            },
            ExprLangError::RuntimeError { message, pos } => {
                match pos {
                    Some(p) => {
                        r.append("RuntimeError at ");
                        push_line_column(&mut r, p);
                        r.append(": ");
                    },
                    None => {
                        r.append("RuntimeError: ");
                    },
                }
                r.append(message.as_str());
            },
            ExprLangError::ControlFlow { kind } => {
                match kind {
                    ControlFlowKind::Break => r.append("ControlFlow: Break"),
                    ControlFlowKind::Continue => r.append("ControlFlow: Continue"),
                }
            },
        }
        r
    }
}

impl From<ExprLangError> for String {
    /// The error as it is displayed (see [`ExprLangError::to_string`]).
    fn from(err: ExprLangError) -> (r: String)
        ensures
            r@ == error_text(err),
    {
        err.to_string()
    }
}

impl vstd::std_specs::convert::FromSpecImpl<ExprLangError> for String {
    /// The conversion is described by the view of its result, stated on
    /// `from` itself, rather than by a `String` given in spec code.
    open spec fn obeys_from_spec() -> bool {
        false
    }

    open spec fn from_spec(v: ExprLangError) -> String {
        arbitrary()
    }
}

} // verus!
