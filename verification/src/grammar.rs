//! The syntax of ExprLang, stated as functions from a parser state to the
//! expression read and the state after it.
//!
//! A state is the current token together with the position the lexer has
//! reached after reading it; moving on reads the next token of the text from
//! that position. Every rule either reads a token before descending into a
//! rule that may lead back to it, or descends to a rule of tighter binding;
//! `measure` (what is left of the text, plus one for a current token that is
//! not the end) bounds how often tokens can be read.

use vstd::prelude::*;
use crate::ast::{ExprView, Op, UnaryOp};
use crate::lexer::{TokenView, next_token_spec, lemma_next_token_progress};

verus! {

/// The current token and the lexer position after it.
pub type PState = (TokenView, nat);

/// Characters left after position `p`.
pub open spec fn remaining(s: Seq<char>, p: nat) -> nat {
    if p <= s.len() {
        (s.len() - p) as nat
    } else {
        0
    }
}

/// How much input a state has left: the characters after the lexer, plus
/// one for a current token other than the end of input.
pub open spec fn measure(s: Seq<char>, st: PState) -> nat {
    remaining(s, st.1) + if st.0 == TokenView::Eof {
        0nat
    } else {
        1nat
    }
}

/// Reading the next token.
pub open spec fn advance(s: Seq<char>, st: PState) -> Result<PState, Seq<char>> {
    match next_token_spec(s, st.1 as int) {
        Ok((t, q)) => Ok((t, q as nat)),
        Err(m) => Err(m),
    }
}

/// Reading a token never adds input, and reading past a token other than
/// the end of input always uses some up.
pub proof fn lemma_advance(s: Seq<char>, st: PState)
    ensures
        advance(s, st) matches Ok(st2) ==> {
            &&& measure(s, st2) <= measure(s, st)
            &&& st.0 != TokenView::Eof ==> measure(s, st2) < measure(s, st)
        },
{
    if st.1 <= s.len() {
        lemma_next_token_progress(s, st.1 as int);
    } else {
        assert(crate::lexer::ws_end(s, st.1 as int) == st.1);
        assert(crate::lexer::skip_trivia(s, st.1 as int) == st.1);
        reveal(crate::lexer::token_at);
        reveal(crate::lexer::next_token_spec);
    }
}

/// A sub-rule ended in a state with no more input than it started with.
/// Rules only ever read forward, so this always holds; the rules test it so
/// that their termination does not depend on it.
pub open spec fn no_more(s: Seq<char>, after: PState, before: PState) -> bool {
    measure(s, after) <= measure(s, before)
}

/// The name a token is reported by in an error.
pub open spec fn token_name(t: TokenView) -> Seq<char> {
    match t {
        TokenView::Number(x) => "Number("@ + x + ")"@,
        TokenView::Str(x) => "String(\""@ + x + "\")"@,
        TokenView::Ident(x) => "Ident(\""@ + x + "\")"@,
        TokenView::Plus => "Plus"@,
        TokenView::Minus => "Minus"@,
        TokenView::Star => "Star"@,
        TokenView::Slash => "Slash"@,
        TokenView::LParen => "LParen"@,
        TokenView::RParen => "RParen"@,
        TokenView::LBracket => "LBracket"@,
        TokenView::RBracket => "RBracket"@,
        TokenView::Assign => "Assign"@,
        TokenView::Comma => "Comma"@,
        TokenView::Semicolon => "Semicolon"@,
        TokenView::Less => "Less"@,
        TokenView::LessEqual => "LessEqual"@,
        TokenView::Greater => "Greater"@,
        TokenView::GreaterEqual => "GreaterEqual"@,
        TokenView::Equal => "Equal"@,
        TokenView::NotEqual => "NotEqual"@,
        TokenView::And => "And"@,
        TokenView::Or => "Or"@,
        TokenView::Not => "Not"@,
        TokenView::If => "If"@,
        TokenView::Then => "Then"@,
        TokenView::Else => "Else"@,
        TokenView::Elif => "Elif"@,
        TokenView::While => "While"@,
        TokenView::Do => "Do"@,
        TokenView::For => "For"@,
        TokenView::In => "In"@,
        TokenView::Step => "Step"@,
        TokenView::Break => "Break"@,
        TokenView::Continue => "Continue"@,
        TokenView::Fn => "Fn"@,
        TokenView::Colon => "Colon"@,
        TokenView::DotDot => "DotDot"@,
        TokenView::Eof => "Eof"@,
    }
}

/// The error for a token that cannot start an operand.
pub open spec fn unexpected_token(t: TokenView) -> Seq<char> {
    "Unexpected token: "@ + token_name(t)
}

/// The comparison operator a token stands for.
pub open spec fn comparison_op(t: TokenView) -> Option<Op> {
    match t {
        TokenView::Less => Some(Op::Less),
        TokenView::LessEqual => Some(Op::LessEqual),
        TokenView::Greater => Some(Op::Greater),
        TokenView::GreaterEqual => Some(Op::GreaterEqual),
        TokenView::Equal => Some(Op::Equal),
        TokenView::NotEqual => Some(Op::NotEqual),
        _ => None,
    }
}

/// The additive operator a token stands for.
pub open spec fn additive_op(t: TokenView) -> Option<Op> {
    match t {
        TokenView::Plus => Some(Op::Add),
        TokenView::Minus => Some(Op::Sub),
        _ => None,
    }
}

/// The multiplicative operator a token stands for.
pub open spec fn multiplicative_op(t: TokenView) -> Option<Op> {
    match t {
        TokenView::Star => Some(Op::Mul),
        TokenView::Slash => Some(Op::Div),
        _ => None,
    }
}

/// The result of a rule that reads one expression.
pub type Parsed = Result<(ExprView, PState), Seq<char>>;

/// The result of a rule that reads a list.
pub type ParsedList = Result<(Seq<ExprView>, PState), Seq<char>>;

/// `expr := if-expr | while-expr | for-expr | fn-def | break | continue
///        | let name = expr | name = expr | or-expr`
#[verifier::opaque]
pub open spec fn p_expr(s: Seq<char>, st: PState) -> Parsed
    decreases measure(s, st), 30nat,
{
    match st.0 {
        TokenView::If => match advance(s, st) {
            Err(m) => Err(m),
            Ok(st1) => {
                proof {
                    lemma_advance(s, st);
                }
                p_if(s, st1)
            },
        },
        TokenView::While => match advance(s, st) {
            Err(m) => Err(m),
            Ok(st1) => {
                proof {
                    lemma_advance(s, st);
                }
                p_while(s, st1)
            },
        },
        TokenView::For => p_for(s, st),
        TokenView::Fn => p_fndef(s, st),
        TokenView::Break => match advance(s, st) {
            Ok(st2) => Ok((ExprView::Break, st2)),
            Err(m) => Err(m),
        },
        TokenView::Continue => match advance(s, st) {
            Ok(st2) => Ok((ExprView::Continue, st2)),
            Err(m) => Err(m),
        },
        TokenView::Ident(n) => if n == "let"@ {
            p_let(s, st)
        } else {
            p_assign(s, st)
        },
        _ => p_assign(s, st),
    }
}

/// `let name = expr`, the current token being `let`.
#[verifier::opaque]
pub open spec fn p_let(s: Seq<char>, st: PState) -> Parsed
    decreases measure(s, st), 29nat,
{
    match advance(s, st) {
        Err(m) => Err(m),
        Ok(st1) => match st1.0 {
            TokenView::Ident(name) => match advance(s, st1) {
                Err(m) => Err(m),
                Ok(st2) => if st2.0 != TokenView::Assign {
                    Err("Expected '=' after let"@)
                } else {
                    match advance(s, st2) {
                        Err(m) => Err(m),
                        Ok(st3) => {
                            proof {
                                lemma_advance(s, st);
                                lemma_advance(s, st1);
                                lemma_advance(s, st2);
                            }
                            match p_expr(s, st3) {
                                Ok((e, st4)) => Ok(
                                    (ExprView::Assign { name, expr: Box::new(e) }, st4),
                                ),
                                Err(m) => Err(m),
                            }
                        },
                    }
                },
            },
            _ => Err("Expected variable name after let"@),
        },
    }
}

/// `name = expr | or-expr`
#[verifier::opaque]
pub open spec fn p_assign(s: Seq<char>, st: PState) -> Parsed
    decreases measure(s, st), 29nat,
{
    match p_or(s, st) {
        Err(m) => Err(m),
        Ok((left, st1)) => if !no_more(s, st1, st) {
            Err(Seq::empty())
        } else if st1.0 == TokenView::Assign {
            match left {
                ExprView::Variable(name) => match advance(s, st1) {
                    Err(m) => Err(m),
                    Ok(st2) => {
                        proof {
                            lemma_advance(s, st1);
                        }
                        match p_expr(s, st2) {
                            Ok((right, st3)) => Ok(
                                (ExprView::Assign { name, expr: Box::new(right) }, st3),
                            ),
                            Err(m) => Err(m),
                        }
                    },
                },
                _ => Err("Assignment target must be a variable"@),
            }
        } else {
            Ok((left, st1))
        },
    }
}

/// `or-expr := and-expr ("||" and-expr)*`, associating to the left.
#[verifier::opaque]
pub open spec fn p_or(s: Seq<char>, st: PState) -> Parsed
    decreases measure(s, st), 28nat,
{
    match p_and(s, st) {
        Err(m) => Err(m),
        Ok((left, st1)) => if !no_more(s, st1, st) {
            Err(Seq::empty())
        } else {
            or_rest(s, left, st1)
        },
    }
}

/// The `("||" and-expr)*` tail of an or-expression whose left part is `left`.
#[verifier::opaque]
pub open spec fn or_rest(s: Seq<char>, left: ExprView, st: PState) -> Parsed
    decreases measure(s, st), 27nat,
{
    if st.0 == TokenView::Or {
        match advance(s, st) {
            Err(m) => Err(m),
            Ok(st2) => {
                proof {
                    lemma_advance(s, st);
                }
                match p_and(s, st2) {
                    Err(m) => Err(m),
                    Ok((right, st3)) => if !no_more(s, st3, st2) {
                        Err(Seq::empty())
                    } else {
                        or_rest(
                            s,
                            ExprView::Binary { op: Op::Or, left: Box::new(left), right: Box::new(right) },
                            st3,
                        )
                    },
                }
            },
        }
    } else {
        Ok((left, st))
    }
}

/// `and-expr := comparison ("&&" comparison)*`, associating to the left.
#[verifier::opaque]
pub open spec fn p_and(s: Seq<char>, st: PState) -> Parsed
    decreases measure(s, st), 26nat,
{
    match p_cmp(s, st) {
        Err(m) => Err(m),
        Ok((left, st1)) => if !no_more(s, st1, st) {
            Err(Seq::empty())
        } else {
            and_rest(s, left, st1)
        },
    }
}

/// The `("&&" comparison)*` tail of an and-expression.
#[verifier::opaque]
pub open spec fn and_rest(s: Seq<char>, left: ExprView, st: PState) -> Parsed
    decreases measure(s, st), 25nat,
{
    if st.0 == TokenView::And {
        match advance(s, st) {
            Err(m) => Err(m),
            Ok(st2) => {
                proof {
                    lemma_advance(s, st);
                }
                match p_cmp(s, st2) {
                    Err(m) => Err(m),
                    Ok((right, st3)) => if !no_more(s, st3, st2) {
                        Err(Seq::empty())
                    } else {
                        and_rest(
                            s,
                            ExprView::Binary { op: Op::And, left: Box::new(left), right: Box::new(right) },
                            st3,
                        )
                    },
                }
            },
        }
    } else {
        Ok((left, st))
    }
}

/// `comparison := additive (cmp-op comparison)?`: comparisons group to the right.
#[verifier::opaque]
pub open spec fn p_cmp(s: Seq<char>, st: PState) -> Parsed
    decreases measure(s, st), 24nat,
{
    match p_add(s, st) {
        Err(m) => Err(m),
        Ok((left, st1)) => if !no_more(s, st1, st) {
            Err(Seq::empty())
        } else {
            match comparison_op(st1.0) {
                Some(op) => match advance(s, st1) {
                    Err(m) => Err(m),
                    Ok(st2) => {
                        proof {
                            lemma_advance(s, st1);
                        }
                        match p_cmp(s, st2) {
                            Err(m) => Err(m),
                            Ok((right, st3)) => Ok(
                                (
                                    ExprView::Binary {
                                        op,
                                        left: Box::new(left),
                                        right: Box::new(right),
                                    },
                                    st3,
                                ),
                            ),
                        }
                    },
                },
                None => Ok((left, st1)),
            }
        },
    }
}

/// `additive := term (("+" | "-") term)*`, associating to the left.
#[verifier::opaque]
pub open spec fn p_add(s: Seq<char>, st: PState) -> Parsed
    decreases measure(s, st), 23nat,
{
    match p_mul(s, st) {
        Err(m) => Err(m),
        Ok((left, st1)) => if !no_more(s, st1, st) {
            Err(Seq::empty())
        } else {
            add_rest(s, left, st1)
        },
    }
}

/// The `(("+" | "-") term)*` tail of an additive expression.
#[verifier::opaque]
pub open spec fn add_rest(s: Seq<char>, left: ExprView, st: PState) -> Parsed
    decreases measure(s, st), 22nat,
{
    match additive_op(st.0) {
        Some(op) => match advance(s, st) {
            Err(m) => Err(m),
            Ok(st2) => {
                proof {
                    lemma_advance(s, st);
                }
                match p_mul(s, st2) {
                    Err(m) => Err(m),
                    Ok((right, st3)) => if !no_more(s, st3, st2) {
                        Err(Seq::empty())
                    } else {
                        add_rest(
                            s,
                            ExprView::Binary { op, left: Box::new(left), right: Box::new(right) },
                            st3,
                        )
                    },
                }
            },
        },
        None => Ok((left, st)),
    }
}

/// `term := unary (("*" | "/") unary)*`, associating to the left.
#[verifier::opaque]
pub open spec fn p_mul(s: Seq<char>, st: PState) -> Parsed
    decreases measure(s, st), 21nat,
{
    match p_unary(s, st) {
        Err(m) => Err(m),
        Ok((left, st1)) => if !no_more(s, st1, st) {
            Err(Seq::empty())
        } else {
            mul_rest(s, left, st1)
        },
    }
}

/// The `(("*" | "/") unary)*` tail of a term.
#[verifier::opaque]
pub open spec fn mul_rest(s: Seq<char>, left: ExprView, st: PState) -> Parsed
    decreases measure(s, st), 20nat,
{
    match multiplicative_op(st.0) {
        Some(op) => match advance(s, st) {
            Err(m) => Err(m),
            Ok(st2) => {
                proof {
                    lemma_advance(s, st);
                }
                match p_unary(s, st2) {
                    Err(m) => Err(m),
                    Ok((right, st3)) => if !no_more(s, st3, st2) {
                        Err(Seq::empty())
                    } else {
                        mul_rest(
                            s,
                            ExprView::Binary { op, left: Box::new(left), right: Box::new(right) },
                            st3,
                        )
                    },
                }
            },
        },
        None => Ok((left, st)),
    }
}

/// `unary := "-" unary | "!" unary | postfix`
#[verifier::opaque]
pub open spec fn p_unary(s: Seq<char>, st: PState) -> Parsed
    decreases measure(s, st), 19nat,
{
    let op = if st.0 == TokenView::Minus {
        Some(UnaryOp::Neg)
    } else if st.0 == TokenView::Not {
        Some(UnaryOp::Not)
    } else {
        None
    };
    match op {
        Some(op) => match advance(s, st) {
            Err(m) => Err(m),
            Ok(st2) => {
                proof {
                    lemma_advance(s, st);
                }
                match p_unary(s, st2) {
                    Err(m) => Err(m),
                    Ok((e, st3)) => Ok((ExprView::Unary { op, expr: Box::new(e) }, st3)),
                }
            },
        },
        None => p_postfix(s, st),
    }
}

/// `postfix := primary ("[" index-or-slice "]")*`
#[verifier::opaque]
pub open spec fn p_postfix(s: Seq<char>, st: PState) -> Parsed
    decreases measure(s, st), 18nat,
{
    match p_primary(s, st) {
        Err(m) => Err(m),
        Ok((e, st1)) => if !no_more(s, st1, st) {
            Err(Seq::empty())
        } else {
            postfix_rest(s, e, st1)
        },
    }
}

/// The `("[" expr "]" | "[" expr? ":" expr? "]")*` tail applied to `e`.
#[verifier::opaque]
pub open spec fn postfix_rest(s: Seq<char>, e: ExprView, st: PState) -> Parsed
    decreases measure(s, st), 17nat,
{
    if st.0 == TokenView::LBracket {
        match advance(s, st) {
            Err(m) => Err(m),
            Ok(st2) => {
                proof {
                    lemma_advance(s, st);
                }
                if st2.0 == TokenView::Colon {
                    match advance(s, st2) {
                        Err(m) => Err(m),
                        Ok(st3) => {
                            proof {
                                lemma_advance(s, st2);
                            }
                            match slice_tail(s, e, None, st3) {
                                Err(m) => Err(m),
                                Ok((sliced, st4)) => if !no_more(s, st4, st3) {
                                    Err(Seq::empty())
                                } else {
                                    postfix_rest(s, sliced, st4)
                                },
                            }
                        },
                    }
                } else {
                    match p_expr(s, st2) {
                        Err(m) => Err(m),
                        Ok((i, st3)) => if !no_more(s, st3, st2) {
                            Err(Seq::empty())
                        } else if st3.0 == TokenView::Colon {
                            match advance(s, st3) {
                                Err(m) => Err(m),
                                Ok(st4) => {
                                    proof {
                                        lemma_advance(s, st3);
                                    }
                                    match slice_tail(s, e, Some(Box::new(i)), st4) {
                                        Err(m) => Err(m),
                                        Ok((sliced, st5)) => if !no_more(s, st5, st4) {
                                            Err(Seq::empty())
                                        } else {
                                            postfix_rest(s, sliced, st5)
                                        },
                                    }
                                },
                            }
                        } else if st3.0 != TokenView::RBracket {
                            Err("Expected ']'"@)
                        } else {
                            match advance(s, st3) {
                                Err(m) => Err(m),
                                Ok(st4) => {
                                    proof {
                                        lemma_advance(s, st3);
                                    }
                                    postfix_rest(
                                        s,
                                        ExprView::Index { array: Box::new(e), index: Box::new(i) },
                                        st4,
                                    )
                                },
                            }
                        },
                    }
                }
            },
        }
    } else {
        Ok((e, st))
    }
}

/// `expr? "]"` after the colon of a slice: the slice of `e` from `start`.
#[verifier::opaque]
pub open spec fn slice_tail(s: Seq<char>, e: ExprView, start: Option<Box<ExprView>>, st: PState) -> Parsed
    decreases measure(s, st), 31nat,
{
    if st.0 == TokenView::RBracket {
        match advance(s, st) {
            Err(m) => Err(m),
            Ok(st1) => Ok((ExprView::Slice { array: Box::new(e), start, end: None }, st1)),
        }
    } else {
        match p_expr(s, st) {
            Err(m) => Err(m),
            Ok((end, st1)) => if !no_more(s, st1, st) {
                Err(Seq::empty())
            } else if st1.0 != TokenView::RBracket {
                Err("Expected ']'"@)
            } else {
                match advance(s, st1) {
                    Err(m) => Err(m),
                    Ok(st2) => Ok(
                        (ExprView::Slice { array: Box::new(e), start, end: Some(Box::new(end)) }, st2),
                    ),
                }
            },
        }
    }
}

/// `primary := number | string | name | name "(" args? ")" | "(" expr (";" expr)* ";"? ")"
///            | "[" elems? "]"`
#[verifier::opaque]
pub open spec fn p_primary(s: Seq<char>, st: PState) -> Parsed
    decreases measure(s, st), 16nat,
{
    match st.0 {
        TokenView::Number(n) => match advance(s, st) {
            Err(m) => Err(m),
            Ok(st2) => Ok((ExprView::Number(n), st2)),
        },
        TokenView::Str(x) => match advance(s, st) {
            Err(m) => Err(m),
            Ok(st2) => Ok((ExprView::Str(x), st2)),
        },
        TokenView::Ident(name) => match advance(s, st) {
            Err(m) => Err(m),
            Ok(st2) => if st2.0 == TokenView::LParen {
                match advance(s, st2) {
                    Err(m) => Err(m),
                    Ok(st3) => {
                        proof {
                            lemma_advance(s, st);
                            lemma_advance(s, st2);
                        }
                        call_args(s, name, st3)
                    },
                }
            } else {
                Ok((ExprView::Variable(name), st2))
            },
        },
        TokenView::LParen => match advance(s, st) {
            Err(m) => Err(m),
            Ok(st2) => {
                proof {
                    lemma_advance(s, st);
                }
                paren_expr(s, st2)
            },
        },
        TokenView::LBracket => match advance(s, st) {
            Err(m) => Err(m),
            Ok(st2) => {
                proof {
                    lemma_advance(s, st);
                }
                array_expr(s, st2)
            },
        },
        _ => Err(unexpected_token(st.0)),
    }
}

/// `args? ")"` after `name(`: a call.
#[verifier::opaque]
pub open spec fn call_args(s: Seq<char>, name: Seq<char>, st: PState) -> Parsed
    decreases measure(s, st), 32nat,
{
    if st.0 == TokenView::RParen {
        match advance(s, st) {
            Err(m) => Err(m),
            Ok(st1) => Ok((ExprView::Call { name, args: Seq::empty() }, st1)),
        }
    } else {
        match p_list(s, Seq::empty(), st) {
            Err(m) => Err(m),
            Ok((args, st1)) => if st1.0 != TokenView::RParen {
                Err("Expected ')'"@)
            } else {
                match advance(s, st1) {
                    Err(m) => Err(m),
                    Ok(st2) => Ok((ExprView::Call { name, args }, st2)),
                }
            },
        }
    }
}

/// `expr (";" expr)* ";"? ")"` after `(`: one expression, or a sequence.
#[verifier::opaque]
pub open spec fn paren_expr(s: Seq<char>, st: PState) -> Parsed
    decreases measure(s, st), 32nat,
{
    match p_expr(s, st) {
        Err(m) => Err(m),
        Ok((first, st1)) => if !no_more(s, st1, st) {
            Err(Seq::empty())
        } else {
            match paren_rest(s, seq![first], st1) {
                Err(m) => Err(m),
                Ok((items, st2)) => if st2.0 != TokenView::RParen {
                    Err("Expected ')'"@)
                } else {
                    match advance(s, st2) {
                        Err(m) => Err(m),
                        Ok(st3) => Ok(
                            (
                                if items.len() == 1 {
                                    items[0]
                                } else {
                                    ExprView::Sequence(items)
                                },
                                st3,
                            ),
                        ),
                    }
                },
            }
        },
    }
}

/// `elems? "]"` after `[`: an array literal.
#[verifier::opaque]
pub open spec fn array_expr(s: Seq<char>, st: PState) -> Parsed
    decreases measure(s, st), 32nat,
{
    if st.0 == TokenView::RBracket {
        match advance(s, st) {
            Err(m) => Err(m),
            Ok(st1) => Ok((ExprView::Array(Seq::empty()), st1)),
        }
    } else {
        match p_list(s, Seq::empty(), st) {
            Err(m) => Err(m),
            Ok((elems, st1)) => if st1.0 != TokenView::RBracket {
                Err("Expected ']'"@)
            } else {
                match advance(s, st1) {
                    Err(m) => Err(m),
                    Ok(st2) => Ok((ExprView::Array(elems), st2)),
                }
            },
        }
    }
}

/// `expr ("," expr)*`, appended to `acc`.
#[verifier::opaque]
pub open spec fn p_list(s: Seq<char>, acc: Seq<ExprView>, st: PState) -> ParsedList
    decreases measure(s, st), 31nat,
{
    match p_expr(s, st) {
        Err(m) => Err(m),
        Ok((e, st1)) => if !no_more(s, st1, st) {
            Err(Seq::empty())
        } else if st1.0 == TokenView::Comma {
            match advance(s, st1) {
                Err(m) => Err(m),
                Ok(st2) => {
                    proof {
                        lemma_advance(s, st1);
                    }
                    p_list(s, acc.push(e), st2)
                },
            }
        } else {
            Ok((acc.push(e), st1))
        },
    }
}

/// `(";" expr)*` inside parentheses, where a `;` just before the `)` is
/// allowed; the expressions are appended to `acc`.
#[verifier::opaque]
pub open spec fn paren_rest(s: Seq<char>, acc: Seq<ExprView>, st: PState) -> ParsedList
    decreases measure(s, st), 15nat,
{
    if st.0 == TokenView::Semicolon {
        match advance(s, st) {
            Err(m) => Err(m),
            Ok(st2) => {
                proof {
                    lemma_advance(s, st);
                }
                if st2.0 == TokenView::RParen {
                    Ok((acc, st2))
                } else {
                    match p_expr(s, st2) {
                        Err(m) => Err(m),
                        Ok((e, st3)) => if !no_more(s, st3, st2) {
                            Err(Seq::empty())
                        } else {
                            paren_rest(s, acc.push(e), st3)
                        },
                    }
                }
            },
        }
    } else {
        Ok((acc, st))
    }
}

/// `expr "then" expr` followed by `elif` branches and an optional `else`:
/// an `if` expression after its keyword.
#[verifier::opaque]
pub open spec fn p_if(s: Seq<char>, st: PState) -> Parsed
    decreases measure(s, st), 32nat,
{
    match branch_rest(s, st) {
        Err(m) => Err(m),
        Ok((branch, st1)) => if !no_more(s, st1, st) {
            Err(Seq::empty())
        } else {
            if_rest(s, seq![branch], st1)
        },
    }
}

/// `expr "then" expr`: a condition and its branch, after `if` or `elif`.
#[verifier::opaque]
pub open spec fn branch_rest(s: Seq<char>, st: PState) -> Result<
    ((ExprView, ExprView), PState),
    Seq<char>,
>
    decreases measure(s, st), 31nat,
{
    match p_expr(s, st) {
        Err(m) => Err(m),
        Ok((cond, st1)) => if !no_more(s, st1, st) {
            Err(Seq::empty())
        } else if st1.0 != TokenView::Then {
            Err("Expected 'then'"@)
        } else {
            match advance(s, st1) {
                Err(m) => Err(m),
                Ok(st2) => {
                    proof {
                        lemma_advance(s, st1);
                    }
                    match p_expr(s, st2) {
                        Err(m) => Err(m),
                        Ok((body, st3)) => Ok(((cond, body), st3)),
                    }
                },
            }
        },
    }
}

/// `("elif" expr "then" expr)* ("else" expr)?` after the branches `branches`.
#[verifier::opaque]
pub open spec fn if_rest(s: Seq<char>, branches: Seq<(ExprView, ExprView)>, st: PState) -> Parsed
    decreases measure(s, st), 14nat,
{
    if st.0 == TokenView::Elif {
        match advance(s, st) {
            Err(m) => Err(m),
            Ok(st1) => {
                proof {
                    lemma_advance(s, st);
                }
                match branch_rest(s, st1) {
                    Err(m) => Err(m),
                    Ok((branch, st2)) => if !no_more(s, st2, st1) {
                        Err(Seq::empty())
                    } else {
                        if_rest(s, branches.push(branch), st2)
                    },
                }
            },
        }
    } else if st.0 == TokenView::Else {
        match advance(s, st) {
            Err(m) => Err(m),
            Ok(st1) => {
                proof {
                    lemma_advance(s, st);
                }
                match p_expr(s, st1) {
                    Err(m) => Err(m),
                    Ok((e, st2)) => Ok(
                        (ExprView::If { branches, else_branch: Some(Box::new(e)) }, st2),
                    ),
                }
            },
        }
    } else {
        Ok((ExprView::If { branches, else_branch: None }, st))
    }
}

/// `expr "do" expr`: a `while` loop after its keyword.
#[verifier::opaque]
pub open spec fn p_while(s: Seq<char>, st: PState) -> Parsed
    decreases measure(s, st), 31nat,
{
    match p_expr(s, st) {
        Err(m) => Err(m),
        Ok((cond, st1)) => if !no_more(s, st1, st) {
            Err(Seq::empty())
        } else if st1.0 != TokenView::Do {
            Err("Expected 'do'"@)
        } else {
            match advance(s, st1) {
                Err(m) => Err(m),
                Ok(st2) => {
                    proof {
                        lemma_advance(s, st1);
                    }
                    match p_expr(s, st2) {
                        Err(m) => Err(m),
                        Ok((body, st3)) => Ok(
                            (ExprView::While { cond: Box::new(cond), body: Box::new(body) }, st3),
                        ),
                    }
                },
            }
        },
    }
}

/// `"for" name "in" expr ".." expr ("step" expr)? "do" expr`
#[verifier::opaque]
pub open spec fn p_for(s: Seq<char>, st: PState) -> Parsed
    decreases measure(s, st), 29nat,
{
    match advance(s, st) {
        Err(m) => Err(m),
        Ok(st1) => match st1.0 {
            TokenView::Ident(var) => match advance(s, st1) {
                Err(m) => Err(m),
                Ok(st2) => if st2.0 != TokenView::In {
                    Err("Expected 'in'"@)
                } else {
                    match advance(s, st2) {
                        Err(m) => Err(m),
                        Ok(st3) => {
                            proof {
                                lemma_advance(s, st);
                                lemma_advance(s, st1);
                                lemma_advance(s, st2);
                            }
                            match p_expr(s, st3) {
                                Err(m) => Err(m),
                                Ok((start, st4)) => if !no_more(s, st4, st3) {
                                    Err(Seq::empty())
                                } else if st4.0 != TokenView::DotDot {
                                    Err("Expected '..'"@)
                                } else {
                                    match advance(s, st4) {
                                        Err(m) => Err(m),
                                        Ok(st5) => {
                                            proof {
                                                lemma_advance(s, st4);
                                            }
                                            match p_expr(s, st5) {
                                                Err(m) => Err(m),
                                                Ok((end, st6)) => if !no_more(s, st6, st5) {
                                                    Err(Seq::empty())
                                                } else {
                                                    for_rest(s, var, start, end, st6)
                                                },
                                            }
                                        },
                                    }
                                },
                            }
                        },
                    }
                },
            },
            _ => Err("Expected loop variable after 'for'"@),
        },
    }
}

/// `("step" expr)? "do" expr`, completing a `for` loop over `var` from `start` to `end`.
#[verifier::opaque]
pub open spec fn for_rest(
    s: Seq<char>,
    var: Seq<char>,
    start: ExprView,
    end: ExprView,
    st: PState,
) -> Parsed
    decreases measure(s, st), 31nat,
{
    if st.0 == TokenView::Step {
        match advance(s, st) {
            Err(m) => Err(m),
            Ok(st1) => {
                proof {
                    lemma_advance(s, st);
                }
                match p_expr(s, st1) {
                    Err(m) => Err(m),
                    Ok((step, st2)) => if !no_more(s, st2, st1) {
                        Err(Seq::empty())
                    } else {
                        for_body(s, var, start, end, Some(Box::new(step)), st2)
                    },
                }
            },
        }
    } else {
        for_body(s, var, start, end, None, st)
    }
}

/// `"do" expr`, the body of a `for` loop.
#[verifier::opaque]
pub open spec fn for_body(
    s: Seq<char>,
    var: Seq<char>,
    start: ExprView,
    end: ExprView,
    step: Option<Box<ExprView>>,
    st: PState,
) -> Parsed
    decreases measure(s, st), 30nat,
{
    if st.0 != TokenView::Do {
        Err("Expected 'do'"@)
    } else {
        match advance(s, st) {
            Err(m) => Err(m),
            Ok(st1) => {
                proof {
                    lemma_advance(s, st);
                }
                match p_expr(s, st1) {
                    Err(m) => Err(m),
                    Ok((body, st2)) => Ok(
                        (
                            ExprView::For {
                                var,
                                start: Box::new(start),
                                end: Box::new(end),
                                step,
                                body: Box::new(body),
                            },
                            st2,
                        ),
                    ),
                }
            },
        }
    }
}

/// `"fn" name "(" params? ")" "=" expr`
#[verifier::opaque]
pub open spec fn p_fndef(s: Seq<char>, st: PState) -> Parsed
    decreases measure(s, st), 29nat,
{
    match advance(s, st) {
        Err(m) => Err(m),
        Ok(st1) => match st1.0 {
            TokenView::Ident(name) => match advance(s, st1) {
                Err(m) => Err(m),
                Ok(st2) => if st2.0 != TokenView::LParen {
                    Err("Expected '('"@)
                } else {
                    match advance(s, st2) {
                        Err(m) => Err(m),
                        Ok(st3) => {
                            proof {
                                lemma_advance(s, st);
                                lemma_advance(s, st1);
                                lemma_advance(s, st2);
                            }
                            if st3.0 == TokenView::RParen {
                                fn_body(s, name, Seq::empty(), st3)
                            } else {
                                match p_params(s, Seq::empty(), st3) {
                                    Err(m) => Err(m),
                                    Ok((params, st4)) => if !no_more(s, st4, st3) {
                                        Err(Seq::empty())
                                    } else {
                                        fn_body(s, name, params, st4)
                                    },
                                }
                            }
                        },
                    }
                },
            },
            _ => Err("Expected function name"@),
        },
    }
}

/// `name ("," name)*` up to the closing `)` (which stays current), appended to `acc`.
#[verifier::opaque]
pub open spec fn p_params(s: Seq<char>, acc: Seq<Seq<char>>, st: PState) -> Result<
    (Seq<Seq<char>>, PState),
    Seq<char>,
>
    decreases measure(s, st),
{
    match st.0 {
        TokenView::Ident(p) => match advance(s, st) {
            Err(m) => Err(m),
            Ok(st1) => if st1.0 == TokenView::Comma {
                match advance(s, st1) {
                    Err(m) => Err(m),
                    Ok(st2) => {
                        proof {
                            lemma_advance(s, st);
                            lemma_advance(s, st1);
                        }
                        p_params(s, acc.push(p), st2)
                    },
                }
            } else if st1.0 == TokenView::RParen {
                Ok((acc.push(p), st1))
            } else {
                Err("Expected ',' or ')'"@)
            },
        },
        _ => Err("Expected parameter name"@),
    }
}

/// `")" "=" expr`: the rest of a function definition, the current token being `)`.
#[verifier::opaque]
pub open spec fn fn_body(s: Seq<char>, name: Seq<char>, params: Seq<Seq<char>>, st: PState) -> Parsed
    decreases measure(s, st), 30nat,
{
    match advance(s, st) {
        Err(m) => Err(m),
        Ok(st1) => if st1.0 != TokenView::Assign {
            Err("Expected '='"@)
        } else {
            match advance(s, st1) {
                Err(m) => Err(m),
                Ok(st2) => {
                    proof {
                        lemma_advance(s, st);
                        lemma_advance(s, st1);
                    }
                    match p_expr(s, st2) {
                        Err(m) => Err(m),
                        Ok((body, st3)) => Ok(
                            (ExprView::FunctionDef { name, params, body: Box::new(body) }, st3),
                        ),
                    }
                },
            }
        },
    }
}

/// `(expr (";" expr)*)? ";"?` up to the end of input or the first
/// expression not followed by `;`; the expressions are appended to `acc`.
#[verifier::opaque]
pub open spec fn program_rest(s: Seq<char>, acc: Seq<ExprView>, st: PState) -> ParsedList
    decreases measure(s, st),
{
    if st.0 == TokenView::Eof {
        Ok((acc, st))
    } else {
        match p_expr(s, st) {
            Err(m) => Err(m),
            Ok((e, st1)) => if !no_more(s, st1, st) {
                Err(Seq::empty())
            } else if st1.0 == TokenView::Semicolon {
                match advance(s, st1) {
                    Err(m) => Err(m),
                    Ok(st2) => {
                        proof {
                            lemma_advance(s, st1);
                        }
                        program_rest(s, acc.push(e), st2)
                    },
                }
            } else {
                Ok((acc.push(e), st1))
            },
        }
    }
}

/// The program read from state `st`: its single expression, or the
/// sequence of its expressions.
pub open spec fn program(s: Seq<char>, st: PState) -> Result<ExprView, Seq<char>> {
    match program_rest(s, Seq::empty(), st) {
        Err(m) => Err(m),
        Ok((items, _)) => Ok(
            if items.len() == 1 {
                items[0]
            } else {
                ExprView::Sequence(items)
            },
        ),
    }
}

/// The program that the text `s` holds.
pub open spec fn parse_program(s: Seq<char>) -> Result<ExprView, Seq<char>> {
    match advance(s, (TokenView::Eof, 0)) {
        Err(m) => Err(m),
        Ok(st) => program(s, st),
    }
}

} // verus!
verus! {

// ---------------------------------------------------------------------------
// Laws of the grammar.
// ---------------------------------------------------------------------------

/// A comparison `a t b` (where `a` and `b` are additive expressions and no
/// further comparison follows `b`) is the binary operation that the token `t`
/// names: `==` is equality, `!=` inequality, `<` less, `<=` less or equal,
/// `>` greater, `>=` greater or equal.
pub proof fn law_comparison_operators(
    s: Seq<char>,
    st: PState,
    a: ExprView,
    st1: PState,
    st2: PState,
    b: ExprView,
    st3: PState,
)
    requires
        p_add(s, st) == Ok::<(ExprView, PState), Seq<char>>((a, st1)),
        no_more(s, st1, st),
        advance(s, st1) == Ok::<PState, Seq<char>>(st2),
        p_add(s, st2) == Ok::<(ExprView, PState), Seq<char>>((b, st3)),
        no_more(s, st3, st2),
        st3.0 != TokenView::Equal && st3.0 != TokenView::NotEqual && st3.0 != TokenView::Less
            && st3.0 != TokenView::LessEqual && st3.0 != TokenView::Greater && st3.0
            != TokenView::GreaterEqual,
    ensures
        st1.0 == TokenView::Equal ==> p_cmp(s, st) == Ok::<(ExprView, PState), Seq<char>>(
            (ExprView::Binary { op: Op::Equal, left: Box::new(a), right: Box::new(b) }, st3),
        ),
        st1.0 == TokenView::NotEqual ==> p_cmp(s, st) == Ok::<(ExprView, PState), Seq<char>>(
            (ExprView::Binary { op: Op::NotEqual, left: Box::new(a), right: Box::new(b) }, st3),
        ),
        st1.0 == TokenView::Less ==> p_cmp(s, st) == Ok::<(ExprView, PState), Seq<char>>(
            (ExprView::Binary { op: Op::Less, left: Box::new(a), right: Box::new(b) }, st3),
        ),
        st1.0 == TokenView::LessEqual ==> p_cmp(s, st) == Ok::<(ExprView, PState), Seq<char>>(
            (ExprView::Binary { op: Op::LessEqual, left: Box::new(a), right: Box::new(b) }, st3),
        ),
        st1.0 == TokenView::Greater ==> p_cmp(s, st) == Ok::<(ExprView, PState), Seq<char>>(
            (ExprView::Binary { op: Op::Greater, left: Box::new(a), right: Box::new(b) }, st3),
        ),
        st1.0 == TokenView::GreaterEqual ==> p_cmp(s, st) == Ok::<(ExprView, PState), Seq<char>>(
            (ExprView::Binary { op: Op::GreaterEqual, left: Box::new(a), right: Box::new(b) }, st3),
        ),
{
    reveal_with_fuel(p_cmp, 1);
    reveal_with_fuel(p_add, 1);
    assert(p_cmp(s, st2) == Ok::<(ExprView, PState), Seq<char>>((b, st3)));
}

/// A sum `a t b` of two terms (no `+` or `-` following `b`) is the operation
/// that the token `t` names: `+` is addition and `-` subtraction.
pub proof fn law_additive_operators(
    s: Seq<char>,
    st: PState,
    a: ExprView,
    st1: PState,
    st2: PState,
    b: ExprView,
    st3: PState,
)
    requires
        p_mul(s, st) == Ok::<(ExprView, PState), Seq<char>>((a, st1)),
        no_more(s, st1, st),
        advance(s, st1) == Ok::<PState, Seq<char>>(st2),
        p_mul(s, st2) == Ok::<(ExprView, PState), Seq<char>>((b, st3)),
        no_more(s, st3, st2),
        st3.0 != TokenView::Plus && st3.0 != TokenView::Minus,
    ensures
        st1.0 == TokenView::Plus ==> p_add(s, st) == Ok::<(ExprView, PState), Seq<char>>(
            (ExprView::Binary { op: Op::Add, left: Box::new(a), right: Box::new(b) }, st3),
        ),
        st1.0 == TokenView::Minus ==> p_add(s, st) == Ok::<(ExprView, PState), Seq<char>>(
            (ExprView::Binary { op: Op::Sub, left: Box::new(a), right: Box::new(b) }, st3),
        ),
{
    lemma_advance(s, st1);
    if st1.0 == TokenView::Plus {
        let c = ExprView::Binary { op: Op::Add, left: Box::new(a), right: Box::new(b) };
        assert(add_rest(s, c, st3) == Ok::<(ExprView, PState), Seq<char>>((c, st3))) by {
            reveal_with_fuel(add_rest, 1);
        }
        assert(add_rest(s, a, st1) == add_rest(s, c, st3)) by {
            reveal_with_fuel(add_rest, 1);
            reveal_with_fuel(p_mul, 1);
        }
    }
    if st1.0 == TokenView::Minus {
        let c = ExprView::Binary { op: Op::Sub, left: Box::new(a), right: Box::new(b) };
        assert(add_rest(s, c, st3) == Ok::<(ExprView, PState), Seq<char>>((c, st3))) by {
            reveal_with_fuel(add_rest, 1);
        }
        assert(add_rest(s, a, st1) == add_rest(s, c, st3)) by {
            reveal_with_fuel(add_rest, 1);
            reveal_with_fuel(p_mul, 1);
        }
    }
    reveal_with_fuel(p_add, 1);
    reveal_with_fuel(p_mul, 1);
    reveal_with_fuel(add_rest, 1);
}

/// A product `a t b` of two unary expressions (no `*` or `/` following `b`)
/// is the operation that the token `t` names: `*` is multiplication and `/`
/// division.
pub proof fn law_multiplicative_operators(
    s: Seq<char>,
    st: PState,
    a: ExprView,
    st1: PState,
    st2: PState,
    b: ExprView,
    st3: PState,
)
    requires
        p_unary(s, st) == Ok::<(ExprView, PState), Seq<char>>((a, st1)),
        no_more(s, st1, st),
        advance(s, st1) == Ok::<PState, Seq<char>>(st2),
        p_unary(s, st2) == Ok::<(ExprView, PState), Seq<char>>((b, st3)),
        no_more(s, st3, st2),
        st3.0 != TokenView::Star && st3.0 != TokenView::Slash,
    ensures
        st1.0 == TokenView::Star ==> p_mul(s, st) == Ok::<(ExprView, PState), Seq<char>>(
            (ExprView::Binary { op: Op::Mul, left: Box::new(a), right: Box::new(b) }, st3),
        ),
        st1.0 == TokenView::Slash ==> p_mul(s, st) == Ok::<(ExprView, PState), Seq<char>>(
            (ExprView::Binary { op: Op::Div, left: Box::new(a), right: Box::new(b) }, st3),
        ),
{
    lemma_advance(s, st1);
    if st1.0 == TokenView::Star {
        let c = ExprView::Binary { op: Op::Mul, left: Box::new(a), right: Box::new(b) };
        assert(mul_rest(s, c, st3) == Ok::<(ExprView, PState), Seq<char>>((c, st3))) by {
            reveal_with_fuel(mul_rest, 1);
        }
        assert(mul_rest(s, a, st1) == mul_rest(s, c, st3)) by {
            reveal_with_fuel(mul_rest, 1);
            reveal_with_fuel(p_unary, 1);
        }
    }
    if st1.0 == TokenView::Slash {
        let c = ExprView::Binary { op: Op::Div, left: Box::new(a), right: Box::new(b) };
        assert(mul_rest(s, c, st3) == Ok::<(ExprView, PState), Seq<char>>((c, st3))) by {
            reveal_with_fuel(mul_rest, 1);
        }
        assert(mul_rest(s, a, st1) == mul_rest(s, c, st3)) by {
            reveal_with_fuel(mul_rest, 1);
            reveal_with_fuel(p_unary, 1);
        }
    }
    reveal_with_fuel(p_mul, 1);
    reveal_with_fuel(p_unary, 1);
    reveal_with_fuel(mul_rest, 1);
}

/// `a && b`, for comparisons `a` and `b` with no `&&` following, is the
/// conjunction of `a` and `b`.
pub proof fn law_and_operator(
    s: Seq<char>,
    st: PState,
    a: ExprView,
    st1: PState,
    st2: PState,
    b: ExprView,
    st3: PState,
)
    requires
        p_cmp(s, st) == Ok::<(ExprView, PState), Seq<char>>((a, st1)),
        no_more(s, st1, st),
        advance(s, st1) == Ok::<PState, Seq<char>>(st2),
        p_cmp(s, st2) == Ok::<(ExprView, PState), Seq<char>>((b, st3)),
        no_more(s, st3, st2),
        st3.0 != TokenView::And,
    ensures
        st1.0 == TokenView::And ==> p_and(s, st) == Ok::<(ExprView, PState), Seq<char>>(
            (ExprView::Binary { op: Op::And, left: Box::new(a), right: Box::new(b) }, st3),
        ),
{
    lemma_advance(s, st1);
    if st1.0 == TokenView::And {
        let c = ExprView::Binary { op: Op::And, left: Box::new(a), right: Box::new(b) };
        assert(and_rest(s, c, st3) == Ok::<(ExprView, PState), Seq<char>>((c, st3))) by {
            reveal_with_fuel(and_rest, 1);
        }
        assert(and_rest(s, a, st1) == and_rest(s, c, st3)) by {
            reveal_with_fuel(and_rest, 1);
            reveal_with_fuel(p_cmp, 1);
        }
    }
    reveal_with_fuel(p_and, 1);
    reveal_with_fuel(p_cmp, 1);
    reveal_with_fuel(and_rest, 1);
}

/// `a || b`, for conjunctions `a` and `b` with no `||` following, is the
/// disjunction of `a` and `b`.
pub proof fn law_or_operator(
    s: Seq<char>,
    st: PState,
    a: ExprView,
    st1: PState,
    st2: PState,
    b: ExprView,
    st3: PState,
)
    requires
        p_and(s, st) == Ok::<(ExprView, PState), Seq<char>>((a, st1)),
        no_more(s, st1, st),
        advance(s, st1) == Ok::<PState, Seq<char>>(st2),
        p_and(s, st2) == Ok::<(ExprView, PState), Seq<char>>((b, st3)),
        no_more(s, st3, st2),
        st3.0 != TokenView::Or,
    ensures
        st1.0 == TokenView::Or ==> p_or(s, st) == Ok::<(ExprView, PState), Seq<char>>(
            (ExprView::Binary { op: Op::Or, left: Box::new(a), right: Box::new(b) }, st3),
        ),
{
    lemma_advance(s, st1);
    if st1.0 == TokenView::Or {
        let c = ExprView::Binary { op: Op::Or, left: Box::new(a), right: Box::new(b) };
        assert(or_rest(s, c, st3) == Ok::<(ExprView, PState), Seq<char>>((c, st3))) by {
            reveal_with_fuel(or_rest, 1);
        }
        assert(or_rest(s, a, st1) == or_rest(s, c, st3)) by {
            reveal_with_fuel(or_rest, 1);
            reveal_with_fuel(p_and, 1);
        }
    }
    reveal_with_fuel(p_or, 1);
    reveal_with_fuel(p_and, 1);
    reveal_with_fuel(or_rest, 1);
}

/// The prefix operator of token `t` (`-` or `!`), if it is one.
pub open spec fn prefix_operator(t: TokenView) -> Option<UnaryOp> {
    if t == TokenView::Minus {
        Some(UnaryOp::Neg)
    } else if t == TokenView::Not {
        Some(UnaryOp::Not)
    } else {
        None
    }
}

/// `-a` and `!a`, where `a` is a postfix expression, is the prefix operation
/// applied to `a` alone.
proof fn lemma_prefix_operand(
    s: Seq<char>,
    st: PState,
    op: UnaryOp,
    st1: PState,
    a: ExprView,
    st2: PState,
)
    requires
        prefix_operator(st.0) == Some(op),
        advance(s, st) == Ok::<PState, Seq<char>>(st1),
        prefix_operator(st1.0) is None,
        p_postfix(s, st1) == Ok::<(ExprView, PState), Seq<char>>((a, st2)),
        no_more(s, st2, st1),
    ensures
        p_unary(s, st) == Ok::<(ExprView, PState), Seq<char>>(
            (ExprView::Unary { op, expr: Box::new(a) }, st2),
        ),
        no_more(s, st2, st),
{
    lemma_advance(s, st);
    assert(p_unary(s, st1) == Ok::<(ExprView, PState), Seq<char>>((a, st2))) by {
        reveal_with_fuel(p_unary, 1);
        reveal_with_fuel(p_postfix, 1);
    }
    assert(p_unary(s, st) == Ok::<(ExprView, PState), Seq<char>>(
        (ExprView::Unary { op, expr: Box::new(a) }, st2),
    )) by {
        reveal_with_fuel(p_unary, 2);
    }
}

/// A unary expression followed by no `*` or `/` is a whole term.
proof fn lemma_term_of_unary(s: Seq<char>, st: PState, u: ExprView, st1: PState)
    requires
        p_unary(s, st) == Ok::<(ExprView, PState), Seq<char>>((u, st1)),
        no_more(s, st1, st),
        st1.0 != TokenView::Star && st1.0 != TokenView::Slash,
    ensures
        p_mul(s, st) == Ok::<(ExprView, PState), Seq<char>>((u, st1)),
{
    reveal_with_fuel(p_mul, 1);
    reveal_with_fuel(p_unary, 1);
    reveal_with_fuel(mul_rest, 1);
}

/// A term followed by no `+` or `-` is a whole additive expression.
proof fn lemma_sum_of_term(s: Seq<char>, st: PState, u: ExprView, st1: PState)
    requires
        p_mul(s, st) == Ok::<(ExprView, PState), Seq<char>>((u, st1)),
        no_more(s, st1, st),
        st1.0 != TokenView::Plus && st1.0 != TokenView::Minus,
    ensures
        p_add(s, st) == Ok::<(ExprView, PState), Seq<char>>((u, st1)),
{
    reveal_with_fuel(p_add, 1);
    reveal_with_fuel(p_mul, 1);
    reveal_with_fuel(add_rest, 1);
}

/// An additive expression followed by no comparison operator is a whole
/// comparison.
proof fn lemma_comparison_of_sum(s: Seq<char>, st: PState, u: ExprView, st1: PState)
    requires
        p_add(s, st) == Ok::<(ExprView, PState), Seq<char>>((u, st1)),
        no_more(s, st1, st),
        st1.0 != TokenView::Equal && st1.0 != TokenView::NotEqual && st1.0 != TokenView::Less
            && st1.0 != TokenView::LessEqual && st1.0 != TokenView::Greater && st1.0
            != TokenView::GreaterEqual,
    ensures
        p_cmp(s, st) == Ok::<(ExprView, PState), Seq<char>>((u, st1)),
{
    reveal_with_fuel(p_cmp, 1);
    reveal_with_fuel(p_add, 1);
}

/// A prefix operator binds tighter than `&&`: `!a && b` (and `-a && b`) is
/// the conjunction of `!a` and `b`, not the negation of `a && b`.
pub proof fn law_prefix_binds_tighter_than_and(
    s: Seq<char>,
    st: PState,
    op: UnaryOp,
    st1: PState,
    a: ExprView,
    st2: PState,
    st3: PState,
    b: ExprView,
    st4: PState,
)
    requires
        st.0 == TokenView::Not || st.0 == TokenView::Minus,
        op == (if st.0 == TokenView::Not {
            UnaryOp::Not
        } else {
            UnaryOp::Neg
        }),
        advance(s, st) == Ok::<PState, Seq<char>>(st1),
        st1.0 != TokenView::Not && st1.0 != TokenView::Minus,
        p_postfix(s, st1) == Ok::<(ExprView, PState), Seq<char>>((a, st2)),
        no_more(s, st2, st1),
        st2.0 == TokenView::And,
        advance(s, st2) == Ok::<PState, Seq<char>>(st3),
        p_cmp(s, st3) == Ok::<(ExprView, PState), Seq<char>>((b, st4)),
        no_more(s, st4, st3),
        st4.0 != TokenView::And,
    ensures
        p_and(s, st) == Ok::<(ExprView, PState), Seq<char>>(
            (
                ExprView::Binary {
                    op: Op::And,
                    left: Box::new(ExprView::Unary { op, expr: Box::new(a) }),
                    right: Box::new(b),
                },
                st4,
            ),
        ),
{
    lemma_prefix_operand(s, st, op, st1, a, st2);
    let u = ExprView::Unary { op, expr: Box::new(a) };
    lemma_term_of_unary(s, st, u, st2);
    lemma_sum_of_term(s, st, u, st2);
    lemma_comparison_of_sum(s, st, u, st2);
    let c = ExprView::Binary { op: Op::And, left: Box::new(u), right: Box::new(b) };
    assert(and_rest(s, c, st4) == Ok::<(ExprView, PState), Seq<char>>((c, st4))) by {
        reveal_with_fuel(and_rest, 1);
    }
    assert(and_rest(s, u, st2) == and_rest(s, c, st4)) by {
        reveal_with_fuel(and_rest, 1);
        reveal_with_fuel(p_cmp, 1);
    }
    reveal_with_fuel(p_and, 1);
    reveal_with_fuel(p_cmp, 1);
    reveal_with_fuel(and_rest, 1);
}

/// A prefix operator binds tighter than `*`: `!a * b` (and `-a * b`) is the
/// product of `!a` and `b`, not the negation of `a * b`.
pub proof fn law_prefix_binds_tighter_than_mul(
    s: Seq<char>,
    st: PState,
    op: UnaryOp,
    st1: PState,
    a: ExprView,
    st2: PState,
    st3: PState,
    b: ExprView,
    st4: PState,
)
    requires
        st.0 == TokenView::Not || st.0 == TokenView::Minus,
        op == (if st.0 == TokenView::Not {
            UnaryOp::Not
        } else {
            UnaryOp::Neg
        }),
        advance(s, st) == Ok::<PState, Seq<char>>(st1),
        st1.0 != TokenView::Not && st1.0 != TokenView::Minus,
        p_postfix(s, st1) == Ok::<(ExprView, PState), Seq<char>>((a, st2)),
        no_more(s, st2, st1),
        st2.0 == TokenView::Star,
        advance(s, st2) == Ok::<PState, Seq<char>>(st3),
        st3.0 != TokenView::Not && st3.0 != TokenView::Minus,
        p_postfix(s, st3) == Ok::<(ExprView, PState), Seq<char>>((b, st4)),
        no_more(s, st4, st3),
        st4.0 != TokenView::Star && st4.0 != TokenView::Slash,
    ensures
        p_mul(s, st) == Ok::<(ExprView, PState), Seq<char>>(
            (
                ExprView::Binary {
                    op: Op::Mul,
                    left: Box::new(ExprView::Unary { op, expr: Box::new(a) }),
                    right: Box::new(b),
                },
                st4,
            ),
        ),
{
    lemma_prefix_operand(s, st, op, st1, a, st2);
    let u = ExprView::Unary { op, expr: Box::new(a) };
    assert(p_unary(s, st3) == Ok::<(ExprView, PState), Seq<char>>((b, st4))) by {
        reveal_with_fuel(p_unary, 1);
        reveal_with_fuel(p_postfix, 1);
    }
    let c = ExprView::Binary { op: Op::Mul, left: Box::new(u), right: Box::new(b) };
    assert(mul_rest(s, c, st4) == Ok::<(ExprView, PState), Seq<char>>((c, st4))) by {
        reveal_with_fuel(mul_rest, 1);
    }
    assert(mul_rest(s, u, st2) == mul_rest(s, c, st4)) by {
        reveal_with_fuel(mul_rest, 1);
        reveal_with_fuel(p_unary, 1);
    }
    reveal_with_fuel(p_mul, 1);
    reveal_with_fuel(p_unary, 1);
    reveal_with_fuel(mul_rest, 1);
}

/// The states of a parameter list `p1 , p2 , ... , pn )` read from `sts[0]`:
/// `sts[2k]` holds the name `ps[k]`, `sts[2k+1]` the `,` after it (the `)`
/// after the last), and each state is read from the one before.
pub open spec fn param_list_tokens(s: Seq<char>, ps: Seq<Seq<char>>, sts: Seq<PState>) -> bool {
    &&& ps.len() >= 1
    &&& sts.len() == 2 * ps.len()
    &&& forall|k: int| 0 <= k < ps.len() ==> #[trigger] sts[2 * k].0 == TokenView::Ident(ps[k])
    &&& forall|k: int|
        0 <= k < ps.len() - 1 ==> #[trigger] sts[2 * k + 1].0 == TokenView::Comma
    &&& sts[2 * ps.len() - 1].0 == TokenView::RParen
    &&& forall|j: int|
        0 <= j < sts.len() - 1 ==> advance(s, #[trigger] sts[j]) == Ok::<PState, Seq<char>>(
            sts[j + 1],
        )
}

proof fn lemma_param_list(
    s: Seq<char>,
    ps: Seq<Seq<char>>,
    sts: Seq<PState>,
    acc: Seq<Seq<char>>,
    k: int,
)
    requires
        param_list_tokens(s, ps, sts),
        0 <= k < ps.len(),
    ensures
        p_params(s, acc, sts[2 * k]) == Ok::<(Seq<Seq<char>>, PState), Seq<char>>(
            (acc + ps.subrange(k, ps.len() as int), sts[2 * ps.len() - 1]),
        ),
        measure(s, sts[2 * ps.len() - 1]) <= measure(s, sts[2 * k]),
    decreases ps.len() - k,
{
    reveal_with_fuel(p_params, 1);
    let n = ps.len() as int;
    assert(sts[2 * k].0 == TokenView::Ident(ps[k]));
    assert(advance(s, sts[2 * k]) == Ok::<PState, Seq<char>>(sts[2 * k + 1]));
    lemma_advance(s, sts[2 * k]);
    if k < n - 1 {
        assert(sts[2 * k + 1].0 == TokenView::Comma);
        assert(advance(s, sts[2 * k + 1]) == Ok::<PState, Seq<char>>(sts[2 * (k + 1)]));
        lemma_advance(s, sts[2 * k + 1]);
        lemma_param_list(s, ps, sts, acc.push(ps[k]), k + 1);
        assert(acc.push(ps[k]) + ps.subrange(k + 1, n) == acc + ps.subrange(k, n));
    } else {
        assert(acc + ps.subrange(k, n) == acc.push(ps[k]));
    }
}

/// A function definition keeps all its parameters, in order: after
/// `fn name (`, the list `p1 , ... , pn )` gives exactly the parameters
/// `[p1, ..., pn]`, whatever follows.
pub proof fn law_function_parameters(
    s: Seq<char>,
    st: PState,
    name: Seq<char>,
    st1: PState,
    st2: PState,
    ps: Seq<Seq<char>>,
    sts: Seq<PState>,
)
    requires
        st.0 == TokenView::Fn,
        advance(s, st) == Ok::<PState, Seq<char>>(st1),
        st1.0 == TokenView::Ident(name),
        advance(s, st1) == Ok::<PState, Seq<char>>(st2),
        st2.0 == TokenView::LParen,
        param_list_tokens(s, ps, sts),
        advance(s, st2) == Ok::<PState, Seq<char>>(sts[0]),
    ensures
        p_params(s, Seq::empty(), sts[0]) == Ok::<(Seq<Seq<char>>, PState), Seq<char>>(
            (ps, sts[2 * ps.len() - 1]),
        ),
        p_fndef(s, st) == fn_body(s, name, ps, sts[2 * ps.len() - 1]),
        p_fndef(s, st) matches Ok((e, _)) ==> (e matches ExprView::FunctionDef { name: n, params, .. }
            && n == name && params == ps),
{
    lemma_param_list(s, ps, sts, Seq::empty(), 0);
    assert(Seq::<Seq<char>>::empty() + ps.subrange(0, ps.len() as int) == ps);
    assert(sts[2 * 0int].0 == TokenView::Ident(ps[0]));
    reveal_with_fuel(p_fndef, 1);
    reveal_with_fuel(fn_body, 1);
}


/// `while c do b` is the loop with condition `c` and body `b`.
pub proof fn law_while_loop(
    s: Seq<char>,
    st: PState,
    st1: PState,
    c: ExprView,
    st2: PState,
    st3: PState,
    b: ExprView,
    st4: PState,
)
    requires
        st.0 == TokenView::While,
        advance(s, st) == Ok::<PState, Seq<char>>(st1),
        p_expr(s, st1) == Ok::<(ExprView, PState), Seq<char>>((c, st2)),
        no_more(s, st2, st1),
        st2.0 == TokenView::Do,
        advance(s, st2) == Ok::<PState, Seq<char>>(st3),
        p_expr(s, st3) == Ok::<(ExprView, PState), Seq<char>>((b, st4)),
    ensures
        p_expr(s, st) == Ok::<(ExprView, PState), Seq<char>>(
            (ExprView::While { cond: Box::new(c), body: Box::new(b) }, st4),
        ),
{
    assert(p_while(s, st1) == Ok::<(ExprView, PState), Seq<char>>(
        (ExprView::While { cond: Box::new(c), body: Box::new(b) }, st4),
    )) by {
        reveal_with_fuel(p_while, 1);
        reveal_with_fuel(p_expr, 1);
    }
    reveal_with_fuel(p_expr, 1);
    reveal_with_fuel(p_while, 1);
}

/// `c then t` after `if` or `elif` is the branch `(c, t)`.
proof fn lemma_branch(
    s: Seq<char>,
    a1: PState,
    c: ExprView,
    a2: PState,
    a3: PState,
    t: ExprView,
    a4: PState,
)
    requires
        p_expr(s, a1) == Ok::<(ExprView, PState), Seq<char>>((c, a2)),
        no_more(s, a2, a1),
        a2.0 == TokenView::Then,
        advance(s, a2) == Ok::<PState, Seq<char>>(a3),
        p_expr(s, a3) == Ok::<(ExprView, PState), Seq<char>>((t, a4)),
        no_more(s, a4, a3),
    ensures
        branch_rest(s, a1) == Ok::<((ExprView, ExprView), PState), Seq<char>>(((c, t), a4)),
        no_more(s, a4, a1),
{
    lemma_advance(s, a2);
    reveal_with_fuel(branch_rest, 1);
    reveal_with_fuel(p_expr, 1);
}

/// `if c1 then t1 elif c2 then t2 else e` keeps its branches in order, each
/// condition with its own branch, and `e` as the `else` branch.
pub proof fn law_if_elif_else(
    s: Seq<char>,
    st: PState,
    a1: PState,
    c1: ExprView,
    a2: PState,
    a3: PState,
    t1: ExprView,
    a4: PState,
    a5: PState,
    c2: ExprView,
    a6: PState,
    a7: PState,
    t2: ExprView,
    a8: PState,
    a9: PState,
    e: ExprView,
    a10: PState,
)
    requires
        st.0 == TokenView::If,
        advance(s, st) == Ok::<PState, Seq<char>>(a1),
        p_expr(s, a1) == Ok::<(ExprView, PState), Seq<char>>((c1, a2)),
        no_more(s, a2, a1),
        a2.0 == TokenView::Then,
        advance(s, a2) == Ok::<PState, Seq<char>>(a3),
        p_expr(s, a3) == Ok::<(ExprView, PState), Seq<char>>((t1, a4)),
        no_more(s, a4, a3),
        a4.0 == TokenView::Elif,
        advance(s, a4) == Ok::<PState, Seq<char>>(a5),
        p_expr(s, a5) == Ok::<(ExprView, PState), Seq<char>>((c2, a6)),
        no_more(s, a6, a5),
        a6.0 == TokenView::Then,
        advance(s, a6) == Ok::<PState, Seq<char>>(a7),
        p_expr(s, a7) == Ok::<(ExprView, PState), Seq<char>>((t2, a8)),
        no_more(s, a8, a7),
        a8.0 == TokenView::Else,
        advance(s, a8) == Ok::<PState, Seq<char>>(a9),
        p_expr(s, a9) == Ok::<(ExprView, PState), Seq<char>>((e, a10)),
    ensures
        p_expr(s, st) == Ok::<(ExprView, PState), Seq<char>>(
            (
                ExprView::If {
                    branches: seq![(c1, t1), (c2, t2)],
                    else_branch: Some(Box::new(e)),
                },
                a10,
            ),
        ),
{
    lemma_branch(s, a1, c1, a2, a3, t1, a4);
    lemma_branch(s, a5, c2, a6, a7, t2, a8);
    let r = ExprView::If { branches: seq![(c1, t1), (c2, t2)], else_branch: Some(Box::new(e)) };
    assert(seq![(c1, t1)].push((c2, t2)) == seq![(c1, t1), (c2, t2)]);
    assert(if_rest(s, seq![(c1, t1), (c2, t2)], a8) == Ok::<(ExprView, PState), Seq<char>>((r, a10))) by {
        reveal_with_fuel(if_rest, 1);
        reveal_with_fuel(p_expr, 1);
    }
    assert(if_rest(s, seq![(c1, t1)], a4) == if_rest(s, seq![(c1, t1), (c2, t2)], a8)) by {
        reveal_with_fuel(if_rest, 1);
        reveal_with_fuel(branch_rest, 1);
    }
    assert(p_if(s, a1) == Ok::<(ExprView, PState), Seq<char>>((r, a10))) by {
        reveal_with_fuel(p_if, 1);
        reveal_with_fuel(branch_rest, 1);
        reveal_with_fuel(if_rest, 1);
    }
    reveal_with_fuel(p_expr, 1);
    reveal_with_fuel(p_if, 1);
}

/// `if c then t` with no `elif` or `else` after it has one branch and no
/// `else` branch.
pub proof fn law_if_without_else(
    s: Seq<char>,
    st: PState,
    a1: PState,
    c: ExprView,
    a2: PState,
    a3: PState,
    t: ExprView,
    a4: PState,
)
    requires
        st.0 == TokenView::If,
        advance(s, st) == Ok::<PState, Seq<char>>(a1),
        p_expr(s, a1) == Ok::<(ExprView, PState), Seq<char>>((c, a2)),
        no_more(s, a2, a1),
        a2.0 == TokenView::Then,
        advance(s, a2) == Ok::<PState, Seq<char>>(a3),
        p_expr(s, a3) == Ok::<(ExprView, PState), Seq<char>>((t, a4)),
        no_more(s, a4, a3),
        a4.0 != TokenView::Elif && a4.0 != TokenView::Else,
    ensures
        p_expr(s, st) == Ok::<(ExprView, PState), Seq<char>>(
            (ExprView::If { branches: seq![(c, t)], else_branch: None }, a4),
        ),
{
    lemma_branch(s, a1, c, a2, a3, t, a4);
    let r = ExprView::If { branches: seq![(c, t)], else_branch: None };
    assert(p_if(s, a1) == Ok::<(ExprView, PState), Seq<char>>((r, a4))) by {
        reveal_with_fuel(p_if, 1);
        reveal_with_fuel(branch_rest, 1);
        reveal_with_fuel(if_rest, 1);
    }
    reveal_with_fuel(p_expr, 1);
    reveal_with_fuel(p_if, 1);
}

/// `for v in a..b step c do body` is the loop over `v` from `a` to `b` with
/// step `c`; without `step c` it has no step.
pub proof fn law_for_loop(
    s: Seq<char>,
    st: PState,
    f1: PState,
    v: Seq<char>,
    f2: PState,
    f3: PState,
    a: ExprView,
    f4: PState,
    f5: PState,
    b: ExprView,
    f6: PState,
    step: Option<ExprView>,
    f8: PState,
    f9: PState,
    body: ExprView,
    f10: PState,
)
    requires
        st.0 == TokenView::For,
        advance(s, st) == Ok::<PState, Seq<char>>(f1),
        f1.0 == TokenView::Ident(v),
        advance(s, f1) == Ok::<PState, Seq<char>>(f2),
        f2.0 == TokenView::In,
        advance(s, f2) == Ok::<PState, Seq<char>>(f3),
        p_expr(s, f3) == Ok::<(ExprView, PState), Seq<char>>((a, f4)),
        no_more(s, f4, f3),
        f4.0 == TokenView::DotDot,
        advance(s, f4) == Ok::<PState, Seq<char>>(f5),
        p_expr(s, f5) == Ok::<(ExprView, PState), Seq<char>>((b, f6)),
        no_more(s, f6, f5),
        match step {
            None => f6.0 != TokenView::Step && f8 == f6,
            Some(c) => f6.0 == TokenView::Step && exists|f7: PState|
                advance(s, f6) == Ok::<PState, Seq<char>>(f7) && p_expr(s, f7) == Ok::<(ExprView, PState), Seq<char>>((c, f8)) && no_more(s, f8, f7),
        },
        f8.0 == TokenView::Do,
        advance(s, f8) == Ok::<PState, Seq<char>>(f9),
        p_expr(s, f9) == Ok::<(ExprView, PState), Seq<char>>((body, f10)),
    ensures
        p_expr(s, st) == Ok::<(ExprView, PState), Seq<char>>(
            (
                ExprView::For {
                    var: v,
                    start: Box::new(a),
                    end: Box::new(b),
                    step: match step {
                        Some(c) => Some(Box::new(c)),
                        None => None,
                    },
                    body: Box::new(body),
                },
                f10,
            ),
        ),
{
    let bs = match step {
        Some(c) => Some(Box::new(c)),
        None => None,
    };
    let r = ExprView::For { var: v, start: Box::new(a), end: Box::new(b), step: bs, body: Box::new(body) };
    assert(for_body(s, v, a, b, bs, f8) == Ok::<(ExprView, PState), Seq<char>>((r, f10))) by {
        reveal_with_fuel(for_body, 1);
        reveal_with_fuel(p_expr, 1);
    }
    assert(for_rest(s, v, a, b, f6) == Ok::<(ExprView, PState), Seq<char>>((r, f10))) by {
        reveal_with_fuel(for_rest, 1);
        reveal_with_fuel(p_expr, 1);
        reveal_with_fuel(for_body, 1);
    }
    assert(p_for(s, st) == Ok::<(ExprView, PState), Seq<char>>((r, f10))) by {
        reveal_with_fuel(p_for, 1);
        reveal_with_fuel(p_expr, 1);
        reveal_with_fuel(for_rest, 1);
    }
    reveal_with_fuel(p_expr, 1);
    reveal_with_fuel(p_for, 1);
}

/// `let x = e` assigns `e` to `x`, the same as `x = e`.
pub proof fn law_let(
    s: Seq<char>,
    st: PState,
    l1: PState,
    x: Seq<char>,
    l2: PState,
    l3: PState,
    e: ExprView,
    l4: PState,
)
    requires
        st.0 == TokenView::Ident(seq!['l', 'e', 't']),
        advance(s, st) == Ok::<PState, Seq<char>>(l1),
        l1.0 == TokenView::Ident(x),
        advance(s, l1) == Ok::<PState, Seq<char>>(l2),
        l2.0 == TokenView::Assign,
        advance(s, l2) == Ok::<PState, Seq<char>>(l3),
        p_expr(s, l3) == Ok::<(ExprView, PState), Seq<char>>((e, l4)),
    ensures
        p_expr(s, st) == Ok::<(ExprView, PState), Seq<char>>((ExprView::Assign { name: x, expr: Box::new(e) }, l4)),
{
    reveal_strlit("let");
    assert("let"@ =~= seq!['l', 'e', 't']);
    assert(p_let(s, st) == Ok::<(ExprView, PState), Seq<char>>((ExprView::Assign { name: x, expr: Box::new(e) }, l4))) by {
        reveal_with_fuel(p_let, 1);
        reveal_with_fuel(p_expr, 1);
    }
    reveal_with_fuel(p_expr, 1);
    reveal_with_fuel(p_let, 1);
}

/// `x = e`, where the left side reads as the variable `x`, assigns `e` to
/// `x`; any other left side is refused.
pub proof fn law_assignment(
    s: Seq<char>,
    st: PState,
    target: ExprView,
    st1: PState,
    st2: PState,
    e: ExprView,
    st3: PState,
)
    requires
        p_or(s, st) == Ok::<(ExprView, PState), Seq<char>>((target, st1)),
        no_more(s, st1, st),
        st1.0 == TokenView::Assign,
        advance(s, st1) == Ok::<PState, Seq<char>>(st2),
        p_expr(s, st2) == Ok::<(ExprView, PState), Seq<char>>((e, st3)),
    ensures
        target matches ExprView::Variable(x) ==> p_assign(s, st) == Ok::<(ExprView, PState), Seq<char>>(
            (ExprView::Assign { name: x, expr: Box::new(e) }, st3),
        ),
        !(target is Variable) ==> p_assign(s, st) == Err::<(ExprView, PState), Seq<char>>(
            "Assignment target must be a variable"@,
        ),
{
    reveal_with_fuel(p_assign, 1);
    reveal_with_fuel(p_or, 1);
    reveal_with_fuel(p_expr, 1);
}

/// `e[i]`, with no further `[` after it, indexes `e` by `i`.
pub proof fn law_index(
    s: Seq<char>,
    e: ExprView,
    st: PState,
    st1: PState,
    i: ExprView,
    st2: PState,
    st3: PState,
)
    requires
        st.0 == TokenView::LBracket,
        advance(s, st) == Ok::<PState, Seq<char>>(st1),
        st1.0 != TokenView::Colon,
        p_expr(s, st1) == Ok::<(ExprView, PState), Seq<char>>((i, st2)),
        no_more(s, st2, st1),
        st2.0 == TokenView::RBracket,
        advance(s, st2) == Ok::<PState, Seq<char>>(st3),
        st3.0 != TokenView::LBracket,
    ensures
        postfix_rest(s, e, st) == Ok::<(ExprView, PState), Seq<char>>(
            (ExprView::Index { array: Box::new(e), index: Box::new(i) }, st3),
        ),
{
    let r = ExprView::Index { array: Box::new(e), index: Box::new(i) };
    assert(postfix_rest(s, r, st3) == Ok::<(ExprView, PState), Seq<char>>((r, st3))) by {
        reveal_with_fuel(postfix_rest, 1);
    }
    reveal_with_fuel(postfix_rest, 1);
    reveal_with_fuel(p_expr, 1);
}

/// `e[a:b]`, with no further `[` after it, is the slice of `e` from `a` to
/// `b`: the bound before the colon is the start, the one after it the end.
pub proof fn law_slice(
    s: Seq<char>,
    e: ExprView,
    st: PState,
    st1: PState,
    a: ExprView,
    st2: PState,
    st3: PState,
    b: ExprView,
    st4: PState,
    st5: PState,
)
    requires
        st.0 == TokenView::LBracket,
        advance(s, st) == Ok::<PState, Seq<char>>(st1),
        st1.0 != TokenView::Colon,
        p_expr(s, st1) == Ok::<(ExprView, PState), Seq<char>>((a, st2)),
        no_more(s, st2, st1),
        st2.0 == TokenView::Colon,
        advance(s, st2) == Ok::<PState, Seq<char>>(st3),
        st3.0 != TokenView::RBracket,
        p_expr(s, st3) == Ok::<(ExprView, PState), Seq<char>>((b, st4)),
        no_more(s, st4, st3),
        st4.0 == TokenView::RBracket,
        advance(s, st4) == Ok::<PState, Seq<char>>(st5),
        st5.0 != TokenView::LBracket,
    ensures
        postfix_rest(s, e, st) == Ok::<(ExprView, PState), Seq<char>>(
            (
                ExprView::Slice {
                    array: Box::new(e),
                    start: Some(Box::new(a)),
                    end: Some(Box::new(b)),
                },
                st5,
            ),
        ),
{
    let r = ExprView::Slice { array: Box::new(e), start: Some(Box::new(a)), end: Some(Box::new(b)) };
    lemma_advance(s, st4);
    assert(slice_tail(s, e, Some(Box::new(a)), st3) == Ok::<(ExprView, PState), Seq<char>>((r, st5))) by {
        reveal_with_fuel(slice_tail, 1);
        reveal_with_fuel(p_expr, 1);
    }
    assert(postfix_rest(s, r, st5) == Ok::<(ExprView, PState), Seq<char>>((r, st5))) by {
        reveal_with_fuel(postfix_rest, 1);
    }
    reveal_with_fuel(postfix_rest, 1);
    reveal_with_fuel(p_expr, 1);
    reveal_with_fuel(slice_tail, 1);
}


/// The states of a list `e0 , e1 , ... , en-1` read from `b[0]`: each
/// expression `es[k]` is read from `b[k]` up to `c[k]`, a `,` at `c[k]` leads
/// to `b[k+1]`, and no `,` follows the last one.
pub open spec fn list_tokens(s: Seq<char>, es: Seq<ExprView>, b: Seq<PState>, c: Seq<PState>) -> bool {
    &&& es.len() >= 1
    &&& b.len() == es.len()
    &&& c.len() == es.len()
    &&& forall|k: int|
        0 <= k < es.len() ==> p_expr(s, #[trigger] b[k]) == Ok::<(ExprView, PState), Seq<char>>((es[k], c[k])) && no_more(
            s,
            c[k],
            b[k],
        )
    &&& forall|k: int|
        0 <= k < es.len() - 1 ==> (#[trigger] c[k]).0 == TokenView::Comma && advance(s, c[k])
            == Ok::<PState, Seq<char>>(b[k + 1])
    &&& c[es.len() - 1].0 != TokenView::Comma
}

proof fn lemma_list(
    s: Seq<char>,
    es: Seq<ExprView>,
    b: Seq<PState>,
    c: Seq<PState>,
    acc: Seq<ExprView>,
    k: int,
)
    requires
        list_tokens(s, es, b, c),
        0 <= k < es.len(),
    ensures
        p_list(s, acc, b[k]) == Ok::<(Seq<ExprView>, PState), Seq<char>>(
            (acc + es.subrange(k, es.len() as int), c[es.len() - 1]),
        ),
    decreases es.len() - k,
{
    let n = es.len() as int;
    assert(p_expr(s, b[k]) == Ok::<(ExprView, PState), Seq<char>>((es[k], c[k])) && no_more(s, c[k], b[k]));
    if k < n - 1 {
        assert(c[k].0 == TokenView::Comma && advance(s, c[k]) == Ok::<PState, Seq<char>>(b[k + 1]));
        lemma_list(s, es, b, c, acc.push(es[k]), k + 1);
        assert(acc.push(es[k]) + es.subrange(k + 1, n) == acc + es.subrange(k, n));
        assert(p_list(s, acc, b[k]) == p_list(s, acc.push(es[k]), b[k + 1])) by {
            reveal_with_fuel(p_list, 1);
            reveal_with_fuel(p_expr, 1);
        }
    } else {
        assert(acc + es.subrange(k, n) == acc.push(es[k]));
        reveal_with_fuel(p_list, 1);
        reveal_with_fuel(p_expr, 1);
    }
}

/// `f(e0, ..., en-1)` calls `f` with all its arguments, in order.
pub proof fn law_call_arguments(
    s: Seq<char>,
    name: Seq<char>,
    es: Seq<ExprView>,
    b: Seq<PState>,
    c: Seq<PState>,
    d: PState,
)
    requires
        list_tokens(s, es, b, c),
        b[0].0 != TokenView::RParen,
        c[es.len() - 1].0 == TokenView::RParen,
        advance(s, c[es.len() - 1]) == Ok::<PState, Seq<char>>(d),
    ensures
        call_args(s, name, b[0]) == Ok::<(ExprView, PState), Seq<char>>((ExprView::Call { name, args: es }, d)),
{
    lemma_list(s, es, b, c, Seq::empty(), 0);
    assert(Seq::<ExprView>::empty() + es.subrange(0, es.len() as int) == es);
    reveal_with_fuel(call_args, 1);
    reveal_with_fuel(p_list, 1);
}

/// `[e0, ..., en-1]` is the array of all its elements, in order.
pub proof fn law_array_elements(
    s: Seq<char>,
    es: Seq<ExprView>,
    b: Seq<PState>,
    c: Seq<PState>,
    d: PState,
)
    requires
        list_tokens(s, es, b, c),
        b[0].0 != TokenView::RBracket,
        c[es.len() - 1].0 == TokenView::RBracket,
        advance(s, c[es.len() - 1]) == Ok::<PState, Seq<char>>(d),
    ensures
        array_expr(s, b[0]) == Ok::<(ExprView, PState), Seq<char>>((ExprView::Array(es), d)),
{
    lemma_list(s, es, b, c, Seq::empty(), 0);
    assert(Seq::<ExprView>::empty() + es.subrange(0, es.len() as int) == es);
    reveal_with_fuel(array_expr, 1);
    reveal_with_fuel(p_list, 1);
}


/// The states of a program `e0 ; e1 ; ... ; en-1` read from `b[0]` up to the
/// end of input: each expression `es[k]` is read from `b[k]` (not the end)
/// up to `c[k]`, a `;` at `c[k]` leads to `b[k+1]`, and the end of input
/// follows the last one.
pub open spec fn program_tokens(s: Seq<char>, es: Seq<ExprView>, b: Seq<PState>, c: Seq<PState>) -> bool {
    &&& es.len() >= 1
    &&& b.len() == es.len()
    &&& c.len() == es.len()
    &&& forall|k: int|
        0 <= k < es.len() ==> (#[trigger] b[k]).0 != TokenView::Eof && p_expr(s, b[k]) == Ok::<(ExprView, PState), Seq<char>>(
            (es[k], c[k]),
        ) && no_more(s, c[k], b[k])
    &&& forall|k: int|
        0 <= k < es.len() - 1 ==> (#[trigger] c[k]).0 == TokenView::Semicolon && advance(s, c[k])
            == Ok::<PState, Seq<char>>(b[k + 1])
    &&& c[es.len() - 1].0 == TokenView::Eof
}

proof fn lemma_program_list(
    s: Seq<char>,
    es: Seq<ExprView>,
    b: Seq<PState>,
    c: Seq<PState>,
    acc: Seq<ExprView>,
    k: int,
)
    requires
        program_tokens(s, es, b, c),
        0 <= k < es.len(),
    ensures
        program_rest(s, acc, b[k]) == Ok::<(Seq<ExprView>, PState), Seq<char>>(
            (acc + es.subrange(k, es.len() as int), c[es.len() - 1]),
        ),
    decreases es.len() - k,
{
    let n = es.len() as int;
    assert(b[k].0 != TokenView::Eof && p_expr(s, b[k]) == Ok::<(ExprView, PState), Seq<char>>((es[k], c[k])) && no_more(s, c[k], b[k]));
    if k < n - 1 {
        assert(c[k].0 == TokenView::Semicolon && advance(s, c[k]) == Ok::<PState, Seq<char>>(b[k + 1]));
        lemma_program_list(s, es, b, c, acc.push(es[k]), k + 1);
        assert(acc.push(es[k]) + es.subrange(k + 1, n) == acc + es.subrange(k, n));
        assert(program_rest(s, acc, b[k]) == program_rest(s, acc.push(es[k]), b[k + 1])) by {
            reveal_with_fuel(program_rest, 1);
            reveal_with_fuel(p_expr, 1);
        }
    } else {
        assert(acc + es.subrange(k, n) == acc.push(es[k]));
        reveal_with_fuel(program_rest, 1);
        reveal_with_fuel(p_expr, 1);
    }
}

/// A program of expressions separated by `;` is the sequence of all of them,
/// in order; a program of one expression is that expression.
pub proof fn law_program_sequence(s: Seq<char>, es: Seq<ExprView>, b: Seq<PState>, c: Seq<PState>)
    requires
        program_tokens(s, es, b, c),
    ensures
        program(s, b[0]) == Ok::<ExprView, Seq<char>>(
            if es.len() == 1 {
                es[0]
            } else {
                ExprView::Sequence(es)
            },
        ),
{
    lemma_program_list(s, es, b, c, Seq::empty(), 0);
    assert(Seq::<ExprView>::empty() + es.subrange(0, es.len() as int) == es);
}


/// `+` and `-` group to the left: `a - b - c` is `(a - b) - c`, and likewise
/// for any mix of `+` and `-`.
pub proof fn law_additive_left_associative(
    s: Seq<char>,
    st: PState,
    a: ExprView,
    st1: PState,
    st2: PState,
    b: ExprView,
    st3: PState,
    st4: PState,
    c: ExprView,
    st5: PState,
)
    requires
        p_mul(s, st) == Ok::<(ExprView, PState), Seq<char>>((a, st1)),
        no_more(s, st1, st),
        st1.0 == TokenView::Plus || st1.0 == TokenView::Minus,
        advance(s, st1) == Ok::<PState, Seq<char>>(st2),
        p_mul(s, st2) == Ok::<(ExprView, PState), Seq<char>>((b, st3)),
        no_more(s, st3, st2),
        st3.0 == TokenView::Plus || st3.0 == TokenView::Minus,
        advance(s, st3) == Ok::<PState, Seq<char>>(st4),
        p_mul(s, st4) == Ok::<(ExprView, PState), Seq<char>>((c, st5)),
        no_more(s, st5, st4),
        st5.0 != TokenView::Plus && st5.0 != TokenView::Minus,
    ensures
        p_add(s, st) == Ok::<(ExprView, PState), Seq<char>>(
            (
                ExprView::Binary {
                    op: if st3.0 == TokenView::Plus {
                        Op::Add
                    } else {
                        Op::Sub
                    },
                    left: Box::new(
                        ExprView::Binary {
                            op: if st1.0 == TokenView::Plus {
                                Op::Add
                            } else {
                                Op::Sub
                            },
                            left: Box::new(a),
                            right: Box::new(b),
                        },
                    ),
                    right: Box::new(c),
                },
                st5,
            ),
        ),
{
    lemma_advance(s, st1);
    lemma_advance(s, st3);
    let op1 = if st1.0 == TokenView::Plus {
        Op::Add
    } else {
        Op::Sub
    };
    let op2 = if st3.0 == TokenView::Plus {
        Op::Add
    } else {
        Op::Sub
    };
    let ab = ExprView::Binary { op: op1, left: Box::new(a), right: Box::new(b) };
    let abc = ExprView::Binary { op: op2, left: Box::new(ab), right: Box::new(c) };
    assert(add_rest(s, abc, st5) == Ok::<(ExprView, PState), Seq<char>>((abc, st5))) by {
        reveal_with_fuel(add_rest, 1);
    }
    assert(add_rest(s, ab, st3) == add_rest(s, abc, st5)) by {
        reveal_with_fuel(add_rest, 1);
        reveal_with_fuel(p_mul, 1);
    }
    assert(add_rest(s, a, st1) == add_rest(s, ab, st3)) by {
        reveal_with_fuel(add_rest, 1);
        reveal_with_fuel(p_mul, 1);
    }
    reveal_with_fuel(p_add, 1);
    reveal_with_fuel(p_mul, 1);
    reveal_with_fuel(add_rest, 1);
}

/// `*` and `/` group to the left: `a / b / c` is `(a / b) / c`, and likewise
/// for any mix of `*` and `/`.
pub proof fn law_multiplicative_left_associative(
    s: Seq<char>,
    st: PState,
    a: ExprView,
    st1: PState,
    st2: PState,
    b: ExprView,
    st3: PState,
    st4: PState,
    c: ExprView,
    st5: PState,
)
    requires
        p_unary(s, st) == Ok::<(ExprView, PState), Seq<char>>((a, st1)),
        no_more(s, st1, st),
        st1.0 == TokenView::Star || st1.0 == TokenView::Slash,
        advance(s, st1) == Ok::<PState, Seq<char>>(st2),
        p_unary(s, st2) == Ok::<(ExprView, PState), Seq<char>>((b, st3)),
        no_more(s, st3, st2),
        st3.0 == TokenView::Star || st3.0 == TokenView::Slash,
        advance(s, st3) == Ok::<PState, Seq<char>>(st4),
        p_unary(s, st4) == Ok::<(ExprView, PState), Seq<char>>((c, st5)),
        no_more(s, st5, st4),
        st5.0 != TokenView::Star && st5.0 != TokenView::Slash,
    ensures
        p_mul(s, st) == Ok::<(ExprView, PState), Seq<char>>(
            (
                ExprView::Binary {
                    op: if st3.0 == TokenView::Star {
                        Op::Mul
                    } else {
                        Op::Div
                    },
                    left: Box::new(
                        ExprView::Binary {
                            op: if st1.0 == TokenView::Star {
                                Op::Mul
                            } else {
                                Op::Div
                            },
                            left: Box::new(a),
                            right: Box::new(b),
                        },
                    ),
                    right: Box::new(c),
                },
                st5,
            ),
        ),
{
    lemma_advance(s, st1);
    lemma_advance(s, st3);
    let op1 = if st1.0 == TokenView::Star {
        Op::Mul
    } else {
        Op::Div
    };
    let op2 = if st3.0 == TokenView::Star {
        Op::Mul
    } else {
        Op::Div
    };
    let ab = ExprView::Binary { op: op1, left: Box::new(a), right: Box::new(b) };
    let abc = ExprView::Binary { op: op2, left: Box::new(ab), right: Box::new(c) };
    assert(mul_rest(s, abc, st5) == Ok::<(ExprView, PState), Seq<char>>((abc, st5))) by {
        reveal_with_fuel(mul_rest, 1);
    }
    assert(mul_rest(s, ab, st3) == mul_rest(s, abc, st5)) by {
        reveal_with_fuel(mul_rest, 1);
        reveal_with_fuel(p_unary, 1);
    }
    assert(mul_rest(s, a, st1) == mul_rest(s, ab, st3)) by {
        reveal_with_fuel(mul_rest, 1);
        reveal_with_fuel(p_unary, 1);
    }
    reveal_with_fuel(p_mul, 1);
    reveal_with_fuel(p_unary, 1);
    reveal_with_fuel(mul_rest, 1);
}

} // verus!
