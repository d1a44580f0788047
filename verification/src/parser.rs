//! Recursive-descent parser for ExprLang.
//!
//! The parser reads tokens from a [`Lexer`] one at a time; each rule is
//! proved to compute what the corresponding rule of [`crate::grammar`] says.

use vstd::prelude::*;
use crate::ast::{
    Expr,
    ExprView,
    Op,
    UnaryOp,
    exprs_view,
    branches_view,
    names_view,
    lemma_exprs_view,
    lemma_exprs_view_push,
    lemma_branches_view_push,
    lemma_names_view_push,
};
use crate::grammar::{
    parse_program,
    PState,
    Parsed,
    ParsedList,
    measure,
    advance,
    lemma_advance,
    no_more,
    token_name,
    unexpected_token,
    p_expr,
    p_let,
    p_assign,
    p_or,
    or_rest,
    p_and,
    and_rest,
    p_cmp,
    p_add,
    add_rest,
    p_mul,
    mul_rest,
    p_unary,
    p_postfix,
    postfix_rest,
    slice_tail,
    p_primary,
    call_args,
    paren_expr,
    array_expr,
    p_list,
    paren_rest,
    p_if,
    branch_rest,
    if_rest,
    p_while,
    p_for,
    for_rest,
    for_body,
    p_fndef,
    p_params,
    fn_body,
    program_rest,
    program,
};
use crate::lexer::{Lexer, Token, TokenView};

verus! {

/// `r` is what the rule result `spec` describes, the parser having stopped in `end`.
pub open spec fn yields(r: Result<Expr, String>, end: PState, spec: Parsed) -> bool {
    match spec {
        Ok((e, st)) => r matches Ok(x) && x@ == e && end == st,
        Err(m) => r matches Err(x) && x@ == m,
    }
}

/// `r` is the list that `spec` describes, the parser having stopped in `end`.
pub open spec fn yields_list(r: Result<Vec<Expr>, String>, end: PState, spec: ParsedList) -> bool {
    match spec {
        Ok((es, st)) => r matches Ok(x) && exprs_view(x@) == es && end == st,
        Err(m) => r matches Err(x) && x@ == m,
    }
}

/// The parser state: the lexer and the token it read last.
pub struct Parser {
    lexer: Lexer,
    current: Token,
}

/// The text of a token as it is named in error messages.
fn describe_token(t: &Token) -> (r: String)
    ensures
        r@ == token_name(t@),
{
    match t {
        Token::Number(x) => {
            let mut r = String::from_str("Number(");
            r.append(x.as_str());
            r.append(")");
            r
        },
        Token::String(x) => {
            let mut r = String::from_str("String(\"");
            r.append(x.as_str());
            r.append("\")");
            r
        },
        Token::Ident(x) => {
            let mut r = String::from_str("Ident(\"");
            r.append(x.as_str());
            r.append("\")");
            r
        },
        Token::Plus => String::from_str("Plus"),
        Token::Minus => String::from_str("Minus"),
        Token::Star => String::from_str("Star"),
        Token::Slash => String::from_str("Slash"),
        Token::LParen => String::from_str("LParen"),
        Token::RParen => String::from_str("RParen"),
        Token::LBracket => String::from_str("LBracket"),
        Token::RBracket => String::from_str("RBracket"),
        Token::Assign => String::from_str("Assign"),
        Token::Comma => String::from_str("Comma"),
        Token::Semicolon => String::from_str("Semicolon"),
        Token::Less => String::from_str("Less"),
        Token::LessEqual => String::from_str("LessEqual"),
        Token::Greater => String::from_str("Greater"),
        Token::GreaterEqual => String::from_str("GreaterEqual"),
        Token::Equal => String::from_str("Equal"),
        Token::NotEqual => String::from_str("NotEqual"),
        Token::And => String::from_str("And"),
        Token::Or => String::from_str("Or"),
        Token::Not => String::from_str("Not"),
        Token::If => String::from_str("If"),
        Token::Then => String::from_str("Then"),
        Token::Else => String::from_str("Else"),
        Token::Elif => String::from_str("Elif"),
        Token::While => String::from_str("While"),
        Token::Do => String::from_str("Do"),
        Token::For => String::from_str("For"),
        Token::In => String::from_str("In"),
        Token::Step => String::from_str("Step"),
        Token::Break => String::from_str("Break"),
        Token::Continue => String::from_str("Continue"),
        Token::Fn => String::from_str("Fn"),
        Token::Colon => String::from_str("Colon"),
        Token::DotDot => String::from_str("DotDot"),
        Token::Eof => String::from_str("Eof"),
    }
}

impl Parser {
    /// The text being parsed.
    pub closed spec fn text(&self) -> Seq<char> {
        self.lexer.text()
    }

    /// The current token and the lexer position after it.
    pub closed spec fn state(&self) -> PState {
        (self.current@, self.lexer.position())
    }

    /// The lexer is well formed.
    pub closed spec fn wf(&self) -> bool {
        self.lexer.wf()
    }

    /// Creates a parser and reads the first token.
    pub fn new(lexer: Lexer) -> (r: Result<Self, String>)
        ensures
            match advance(lexer.text(), (TokenView::Eof, lexer.position())) {
                Ok(st) => r matches Ok(p) && p.wf() && p.text() == lexer.text() && p.state() == st,
                Err(m) => r matches Err(e) && e@ == m,
            },
    {
        proof {
            use_type_invariant(&lexer);
        }
        let mut lexer = lexer;
        let current = match lexer.next_token() {
            Ok(v) => v,
            Err(e) => return Err(e),
        };
        Ok(Parser { lexer, current })
    }

    /// Reads the next token.
    fn next_token(&mut self) -> (r: Result<(), String>)
        requires
            old(self).wf(),
        ensures
            final(self).wf(),
            final(self).text() == old(self).text(),
            match advance(old(self).text(), old(self).state()) {
                Ok(st) => r is Ok && final(self).state() == st,
                Err(m) => r matches Err(e) && e@ == m,
            },
    {
        let t = match self.lexer.next_token() {
            Ok(v) => v,
            Err(e) => return Err(e),
        };
        self.current = t;
        Ok(())
    }

    /// Parses a whole program: expressions separated by `;` up to the end of
    /// input (or up to the first expression not followed by `;`). One
    /// expression is returned as it is, several as a sequence.
    #[verifier::spinoff_prover]
    pub fn parse(&mut self) -> (r: Result<Expr, String>)
        ensures
            match program(old(self).text(), old(self).state()) {
                Ok(e) => r matches Ok(x) && x@ == e,
                Err(m) => r matches Err(x) && x@ == m,
            },
    {
        proof {
            use_type_invariant(&self.lexer);
            reveal_with_fuel(program_rest, 1);
            reveal_with_fuel(p_expr, 1);
        }
        let ghost s = self.text();
        let ghost st0 = self.state();
        let mut seq: Vec<Expr> = Vec::new();
        loop
            invariant_except_break
                self.wf(),
                self.text() == s,
                s == old(self).text(),
                st0 == old(self).state(),
                program_rest(s, exprs_view(seq@), self.state()) == program_rest(s, Seq::empty(), st0),
            ensures
                program_rest(s, Seq::empty(), st0) == Ok::<(Seq<ExprView>, PState), Seq<char>>(
                    (exprs_view(seq@), self.state()),
                ),
            decreases measure(s, self.state()),
        {
                proof {
                    reveal_with_fuel(program_rest, 1);
                    reveal_with_fuel(p_expr, 1);
                }
            if matches!(self.current, Token::Eof) {
                break;
            }
            let ghost stc = self.state();
            let ghost before = seq@;
            let expr = match self.parse_expr() {
                Ok(v) => v,
                Err(e) => return Err(e),
            };
            proof {
                lemma_exprs_view_push(before, expr);
            }
            seq.push(expr);
            if matches!(self.current, Token::Semicolon) {
                let ghost st1 = self.state();
                if let Err(e) = self.next_token() {
                    return Err(e);
                }
                proof {
                    lemma_advance(s, st1);
                }
            } else {
                break;
            }
        }
        proof {
            lemma_exprs_view(seq@);
            crate::ast::lemma_exprs_view_empty();
        }
        if seq.len() == 1 {
            let e = seq.remove(0);
            Ok(e)
        } else {
            Ok(Expr::Sequence(seq))
        }
    }

    /// `expr`: dispatches on the current token.
    #[verifier::spinoff_prover]
    fn parse_expr(&mut self) -> (r: Result<Expr, String>)
        requires
            old(self).wf(),
        ensures
            final(self).wf(),
            final(self).text() == old(self).text(),
            yields(r, final(self).state(), p_expr(old(self).text(), old(self).state())),
            r is Ok ==> no_more(old(self).text(), final(self).state(), old(self).state()),
        decreases measure(old(self).text(), old(self).state()), 30nat,
    {
        proof {
            reveal_with_fuel(p_expr, 1);
            reveal_with_fuel(p_if, 1);
            reveal_with_fuel(p_while, 1);
            reveal_with_fuel(p_for, 1);
            reveal_with_fuel(p_fndef, 1);
            reveal_with_fuel(p_let, 1);
            reveal_with_fuel(p_assign, 1);
        }
        let ghost s = self.text();
        let ghost st0 = self.state();
        match &self.current {
            Token::If => {
                if let Err(e) = self.next_token() {
                    return Err(e);
                }
                proof {
                    lemma_advance(s, st0);
                }
                self.parse_if()
            },
            Token::While => {
                if let Err(e) = self.next_token() {
                    return Err(e);
                }
                proof {
                    lemma_advance(s, st0);
                }
                self.parse_while()
            },
            Token::For => self.parse_for(),
            Token::Fn => self.parse_function_def(),
            Token::Break => {
                if let Err(e) = self.next_token() {
                    return Err(e);
                }
                proof {
                    lemma_advance(s, st0);
                }
                Ok(Expr::Break)
            },
            Token::Continue => {
                if let Err(e) = self.next_token() {
                    return Err(e);
                }
                proof {
                    lemma_advance(s, st0);
                }
                Ok(Expr::Continue)
            },
            Token::Ident(name) => {
                if *name == String::from_str("let") {
                    self.parse_let()
                } else {
                    self.parse_assign()
                }
            },
            _ => self.parse_assign(),
        }
    }
    /// `let name = expr`, the current token being `let`.
    #[verifier::spinoff_prover]
    fn parse_let(&mut self) -> (r: Result<Expr, String>)
        requires
            old(self).wf(),
        ensures
            final(self).wf(),
            final(self).text() == old(self).text(),
            yields(r, final(self).state(), p_let(old(self).text(), old(self).state())),
            r is Ok ==> no_more(old(self).text(), final(self).state(), old(self).state()),
        decreases measure(old(self).text(), old(self).state()), 29nat,
    {
        proof {
            reveal_with_fuel(p_let, 1);
            reveal_with_fuel(p_expr, 1);
        }
        let ghost s = self.text();
        let ghost st0 = self.state();
        if let Err(e) = self.next_token() {
            return Err(e);
        }
        let ghost st1 = self.state();
        match &self.current {
            Token::Ident(n) => {
                let name = n.clone();
                if let Err(e) = self.next_token() {
                    return Err(e);
                }
                let ghost st2 = self.state();
                if !matches!(self.current, Token::Assign) {
                    return Err(String::from_str("Expected '=' after let"));
                }
                if let Err(e) = self.next_token() {
                    return Err(e);
                }
                proof {
                    lemma_advance(s, st0);
                    lemma_advance(s, st1);
                    lemma_advance(s, st2);
                }
                let right = match self.parse_expr() {
                    Ok(v) => v,
                    Err(e) => return Err(e),
                };
                Ok(Expr::Assign { name, expr: Box::new(right) })
            },
            _ => Err(String::from_str("Expected variable name after let")),
        }
    }

    /// `name = expr | or-expr`
    #[verifier::spinoff_prover]
    fn parse_assign(&mut self) -> (r: Result<Expr, String>)
        requires
            old(self).wf(),
        ensures
            final(self).wf(),
            final(self).text() == old(self).text(),
            yields(r, final(self).state(), p_assign(old(self).text(), old(self).state())),
            r is Ok ==> no_more(old(self).text(), final(self).state(), old(self).state()),
        decreases measure(old(self).text(), old(self).state()), 29nat,
    {
        proof {
            reveal_with_fuel(p_assign, 1);
            reveal_with_fuel(p_or, 1);
            reveal_with_fuel(p_expr, 1);
        }
        let ghost s = self.text();
        let left = match self.parse_or() {
            Ok(v) => v,
            Err(e) => return Err(e),
        };
        let ghost st1 = self.state();
        if matches!(self.current, Token::Assign) {
            match left {
                Expr::Variable(name) => {
                    if let Err(e) = self.next_token() {
                        return Err(e);
                    }
                    proof {
                        lemma_advance(s, st1);
                    }
                    let right = match self.parse_expr() {
                        Ok(v) => v,
                        Err(e) => return Err(e),
                    };
                    Ok(Expr::Assign { name, expr: Box::new(right) })
                },
                _ => Err(String::from_str("Assignment target must be a variable")),
            }
        } else {
            Ok(left)
        }
    }

    /// `or-expr := and-expr ("||" and-expr)*`
    #[verifier::spinoff_prover]
    fn parse_or(&mut self) -> (r: Result<Expr, String>)
        requires
            old(self).wf(),
        ensures
            final(self).wf(),
            final(self).text() == old(self).text(),
            yields(r, final(self).state(), p_or(old(self).text(), old(self).state())),
            r is Ok ==> no_more(old(self).text(), final(self).state(), old(self).state()),
        decreases measure(old(self).text(), old(self).state()), 28nat,
    {
        proof {
            reveal_with_fuel(p_or, 1);
            reveal_with_fuel(or_rest, 1);
            reveal_with_fuel(p_and, 1);
        }
        let ghost s = self.text();
        let ghost st0 = self.state();
        let mut left = match self.parse_and() {
            Ok(v) => v,
            Err(e) => return Err(e),
        };
        let ghost l1 = left@;
        let ghost st1 = self.state();
        while matches!(self.current, Token::Or)
            invariant
                self.wf(),
                self.text() == s,
                s == old(self).text(),
                st0 == old(self).state(),
                p_or(s, st0) == or_rest(s, l1, st1),
                or_rest(s, left@, self.state()) == or_rest(s, l1, st1),
                no_more(s, self.state(), st0),
            decreases measure(s, self.state()),
        {
                proof {
                    reveal_with_fuel(p_or, 1);
                    reveal_with_fuel(or_rest, 1);
                    reveal_with_fuel(p_and, 1);
                }
            let ghost stc = self.state();
            if let Err(e) = self.next_token() {
                return Err(e);
            }
            proof {
                lemma_advance(s, stc);
            }
            let right = match self.parse_and() {
                Ok(v) => v,
                Err(e) => return Err(e),
            };
            left = Expr::Binary { op: Op::Or, left: Box::new(left), right: Box::new(right) };
        }
        Ok(left)
    }

    /// `and-expr := comparison ("&&" comparison)*`
    #[verifier::spinoff_prover]
    fn parse_and(&mut self) -> (r: Result<Expr, String>)
        requires
            old(self).wf(),
        ensures
            final(self).wf(),
            final(self).text() == old(self).text(),
            yields(r, final(self).state(), p_and(old(self).text(), old(self).state())),
            r is Ok ==> no_more(old(self).text(), final(self).state(), old(self).state()),
        decreases measure(old(self).text(), old(self).state()), 26nat,
    {
        proof {
            reveal_with_fuel(p_and, 1);
            reveal_with_fuel(and_rest, 1);
            reveal_with_fuel(p_cmp, 1);
        }
        let ghost s = self.text();
        let ghost st0 = self.state();
        let mut left = match self.parse_comparison() {
            Ok(v) => v,
            Err(e) => return Err(e),
        };
        let ghost l1 = left@;
        let ghost st1 = self.state();
        while matches!(self.current, Token::And)
            invariant
                self.wf(),
                self.text() == s,
                s == old(self).text(),
                st0 == old(self).state(),
                p_and(s, st0) == and_rest(s, l1, st1),
                and_rest(s, left@, self.state()) == and_rest(s, l1, st1),
                no_more(s, self.state(), st0),
            decreases measure(s, self.state()),
        {
                proof {
                    reveal_with_fuel(p_and, 1);
                    reveal_with_fuel(and_rest, 1);
                    reveal_with_fuel(p_cmp, 1);
                }
            let ghost stc = self.state();
            if let Err(e) = self.next_token() {
                return Err(e);
            }
            proof {
                lemma_advance(s, stc);
            }
            let right = match self.parse_comparison() {
                Ok(v) => v,
                Err(e) => return Err(e),
            };
            left = Expr::Binary { op: Op::And, left: Box::new(left), right: Box::new(right) };
        }
        Ok(left)
    }

    /// `comparison := additive (cmp-op comparison)?`
    #[verifier::spinoff_prover]
    fn parse_comparison(&mut self) -> (r: Result<Expr, String>)
        requires
            old(self).wf(),
        ensures
            final(self).wf(),
            final(self).text() == old(self).text(),
            yields(r, final(self).state(), p_cmp(old(self).text(), old(self).state())),
            r is Ok ==> no_more(old(self).text(), final(self).state(), old(self).state()),
        decreases measure(old(self).text(), old(self).state()), 24nat,
    {
        proof {
            reveal_with_fuel(p_cmp, 1);
            reveal_with_fuel(p_add, 1);
        }
        let ghost s = self.text();
        let left = match self.parse_add_sub() {
            Ok(v) => v,
            Err(e) => return Err(e),
        };
        let ghost st1 = self.state();
        let op = match &self.current {
            Token::Less => Some(Op::Less),
            Token::LessEqual => Some(Op::LessEqual),
            Token::Greater => Some(Op::Greater),
            Token::GreaterEqual => Some(Op::GreaterEqual),
            Token::Equal => Some(Op::Equal),
            Token::NotEqual => Some(Op::NotEqual),
            _ => None,
        };
        match op {
            Some(op) => {
                if let Err(e) = self.next_token() {
                    return Err(e);
                }
                proof {
                    lemma_advance(s, st1);
                }
                let right = match self.parse_comparison() {
                    Ok(v) => v,
                    Err(e) => return Err(e),
                };
                Ok(Expr::Binary { op, left: Box::new(left), right: Box::new(right) })
            },
            None => Ok(left),
        }
    }

    /// `additive := term (("+" | "-") term)*`
    #[verifier::spinoff_prover]
    fn parse_add_sub(&mut self) -> (r: Result<Expr, String>)
        requires
            old(self).wf(),
        ensures
            final(self).wf(),
            final(self).text() == old(self).text(),
            yields(r, final(self).state(), p_add(old(self).text(), old(self).state())),
            r is Ok ==> no_more(old(self).text(), final(self).state(), old(self).state()),
        decreases measure(old(self).text(), old(self).state()), 23nat,
    {
        proof {
            reveal_with_fuel(p_add, 1);
            reveal_with_fuel(add_rest, 1);
            reveal_with_fuel(p_mul, 1);
        }
        let ghost s = self.text();
        let ghost st0 = self.state();
        let mut left = match self.parse_mul_div() {
            Ok(v) => v,
            Err(e) => return Err(e),
        };
        let ghost l1 = left@;
        let ghost st1 = self.state();
        loop
            invariant_except_break
                self.wf(),
                self.text() == s,
                s == old(self).text(),
                st0 == old(self).state(),
                p_add(s, st0) == add_rest(s, l1, st1),
                add_rest(s, left@, self.state()) == add_rest(s, l1, st1),
                no_more(s, self.state(), st0),
            ensures
                self.wf(),
                self.text() == s,
                p_add(s, st0) == Ok::<(ExprView, PState), Seq<char>>((left@, self.state())),
                no_more(s, self.state(), st0),
            decreases measure(s, self.state()),
        {
                proof {
                    reveal_with_fuel(p_add, 1);
                    reveal_with_fuel(add_rest, 1);
                    reveal_with_fuel(p_mul, 1);
                }
            let op = match &self.current {
                Token::Plus => Op::Add,
                Token::Minus => Op::Sub,
                _ => break,
            };
            let ghost stc = self.state();
            if let Err(e) = self.next_token() {
                return Err(e);
            }
            proof {
                lemma_advance(s, stc);
            }
            let right = match self.parse_mul_div() {
                Ok(v) => v,
                Err(e) => return Err(e),
            };
            left = Expr::Binary { op, left: Box::new(left), right: Box::new(right) };
        }
        Ok(left)
    }

    /// `term := unary (("*" | "/") unary)*`
    #[verifier::spinoff_prover]
    fn parse_mul_div(&mut self) -> (r: Result<Expr, String>)
        requires
            old(self).wf(),
        ensures
            final(self).wf(),
            final(self).text() == old(self).text(),
            yields(r, final(self).state(), p_mul(old(self).text(), old(self).state())),
            r is Ok ==> no_more(old(self).text(), final(self).state(), old(self).state()),
        decreases measure(old(self).text(), old(self).state()), 21nat,
    {
        proof {
            reveal_with_fuel(p_mul, 1);
            reveal_with_fuel(mul_rest, 1);
            reveal_with_fuel(p_unary, 1);
        }
        let ghost s = self.text();
        let ghost st0 = self.state();
        let mut left = match self.parse_unary() {
            Ok(v) => v,
            Err(e) => return Err(e),
        };
        let ghost l1 = left@;
        let ghost st1 = self.state();
        loop
            invariant_except_break
                self.wf(),
                self.text() == s,
                s == old(self).text(),
                st0 == old(self).state(),
                p_mul(s, st0) == mul_rest(s, l1, st1),
                mul_rest(s, left@, self.state()) == mul_rest(s, l1, st1),
                no_more(s, self.state(), st0),
            ensures
                self.wf(),
                self.text() == s,
                p_mul(s, st0) == Ok::<(ExprView, PState), Seq<char>>((left@, self.state())),
                no_more(s, self.state(), st0),
            decreases measure(s, self.state()),
        {
                proof {
                    reveal_with_fuel(p_mul, 1);
                    reveal_with_fuel(mul_rest, 1);
                    reveal_with_fuel(p_unary, 1);
                }
            let op = match &self.current {
                Token::Star => Op::Mul,
                Token::Slash => Op::Div,
                _ => break,
            };
            let ghost stc = self.state();
            if let Err(e) = self.next_token() {
                return Err(e);
            }
            proof {
                lemma_advance(s, stc);
            }
            let right = match self.parse_unary() {
                Ok(v) => v,
                Err(e) => return Err(e),
            };
            left = Expr::Binary { op, left: Box::new(left), right: Box::new(right) };
        }
        Ok(left)
    }

    /// `unary := "-" unary | "!" unary | postfix`
    #[verifier::spinoff_prover]
    fn parse_unary(&mut self) -> (r: Result<Expr, String>)
        requires
            old(self).wf(),
        ensures
            final(self).wf(),
            final(self).text() == old(self).text(),
            yields(r, final(self).state(), p_unary(old(self).text(), old(self).state())),
            r is Ok ==> no_more(old(self).text(), final(self).state(), old(self).state()),
        decreases measure(old(self).text(), old(self).state()), 19nat,
    {
        proof {
            reveal_with_fuel(p_unary, 1);
            reveal_with_fuel(p_postfix, 1);
        }
        let ghost s = self.text();
        let ghost st0 = self.state();
        let op = match &self.current {
            Token::Minus => Some(UnaryOp::Neg),
            Token::Not => Some(UnaryOp::Not),
            _ => None,
        };
        match op {
            Some(op) => {
                if let Err(e) = self.next_token() {
                    return Err(e);
                }
                proof {
                    lemma_advance(s, st0);
                }
                let expr = match self.parse_unary() {
                    Ok(v) => v,
                    Err(e) => return Err(e),
                };
                Ok(Expr::Unary { op, expr: Box::new(expr) })
            },
            None => self.parse_postfix(),
        }
    }

    /// `postfix := primary ("[" index-or-slice "]")*`
    #[verifier::spinoff_prover]
    fn parse_postfix(&mut self) -> (r: Result<Expr, String>)
        requires
            old(self).wf(),
        ensures
            final(self).wf(),
            final(self).text() == old(self).text(),
            yields(r, final(self).state(), p_postfix(old(self).text(), old(self).state())),
            r is Ok ==> no_more(old(self).text(), final(self).state(), old(self).state()),
        decreases measure(old(self).text(), old(self).state()), 18nat,
    {
        proof {
            reveal_with_fuel(p_postfix, 1);
            reveal_with_fuel(postfix_rest, 1);
            reveal_with_fuel(p_primary, 1);
            reveal_with_fuel(slice_tail, 1);
            reveal_with_fuel(p_expr, 1);
        }
        let ghost s = self.text();
        let ghost st0 = self.state();
        let mut expr = match self.parse_primary() {
            Ok(v) => v,
            Err(e) => return Err(e),
        };
        let ghost e1 = expr@;
        let ghost st1 = self.state();
        while matches!(self.current, Token::LBracket)
            invariant
                self.wf(),
                self.text() == s,
                s == old(self).text(),
                st0 == old(self).state(),
                p_postfix(s, st0) == postfix_rest(s, e1, st1),
                postfix_rest(s, expr@, self.state()) == postfix_rest(s, e1, st1),
                no_more(s, self.state(), st0),
            decreases measure(s, self.state()),
        {
                proof {
                    reveal_with_fuel(p_postfix, 1);
                    reveal_with_fuel(postfix_rest, 1);
                    reveal_with_fuel(p_primary, 1);
                    reveal_with_fuel(slice_tail, 1);
                    reveal_with_fuel(p_expr, 1);
                }
            let ghost stc = self.state();
            if let Err(e) = self.next_token() {
                return Err(e);
            }
            let ghost st2 = self.state();
            proof {
                lemma_advance(s, stc);
            }
            if matches!(self.current, Token::Colon) {
                if let Err(e) = self.next_token() {
                    return Err(e);
                }
                proof {
                    lemma_advance(s, st2);
                }
                expr = match self.parse_slice_tail(expr, None) {
                    Ok(v) => v,
                    Err(e) => return Err(e),
                };
            } else {
                let index = match self.parse_expr() {
                    Ok(v) => v,
                    Err(e) => return Err(e),
                };
                let ghost st3 = self.state();
                if matches!(self.current, Token::Colon) {
                    if let Err(e) = self.next_token() {
                        return Err(e);
                    }
                    proof {
                        lemma_advance(s, st3);
                    }
                    expr = match self.parse_slice_tail(expr, Some(Box::new(index))) {
                        Ok(v) => v,
                        Err(e) => return Err(e),
                    };
                } else {
                    if !matches!(self.current, Token::RBracket) {
                        return Err(String::from_str("Expected ']'"));
                    }
                    if let Err(e) = self.next_token() {
                        return Err(e);
                    }
                    proof {
                        lemma_advance(s, st3);
                    }
                    expr = Expr::Index { array: Box::new(expr), index: Box::new(index) };
                }
            }
        }
        Ok(expr)
    }

    /// `expr? "]"` after the colon of a slice of `array` from `start`.
    #[verifier::spinoff_prover]
    fn parse_slice_tail(&mut self, array: Expr, start: Option<Box<Expr>>) -> (r: Result<
        Expr,
        String,
    >)
        requires
            old(self).wf(),
        ensures
            final(self).wf(),
            final(self).text() == old(self).text(),
            yields(
                r,
                final(self).state(),
                slice_tail(
                    old(self).text(),
                    array@,
                    crate::ast::opt_view(start),
                    old(self).state(),
                ),
            ),
            r is Ok ==> no_more(old(self).text(), final(self).state(), old(self).state()),
        decreases measure(old(self).text(), old(self).state()), 31nat,
    {
        proof {
            reveal_with_fuel(slice_tail, 1);
            reveal_with_fuel(p_expr, 1);
        }
        let ghost s = self.text();
        let ghost st0 = self.state();
        if matches!(self.current, Token::RBracket) {
            if let Err(e) = self.next_token() {
                return Err(e);
            }
            proof {
                lemma_advance(s, st0);
            }
            return Ok(Expr::Slice { array: Box::new(array), start, end: None });
        }
        let end = match self.parse_expr() {
            Ok(v) => v,
            Err(e) => return Err(e),
        };
        let ghost st1 = self.state();
        if !matches!(self.current, Token::RBracket) {
            return Err(String::from_str("Expected ']'"));
        }
        if let Err(e) = self.next_token() {
            return Err(e);
        }
        proof {
            lemma_advance(s, st1);
        }
        Ok(Expr::Slice { array: Box::new(array), start, end: Some(Box::new(end)) })
    }

    /// `expr ("," expr)*`: call arguments or array elements.
    #[verifier::spinoff_prover]
    fn parse_list(&mut self) -> (r: Result<Vec<Expr>, String>)
        requires
            old(self).wf(),
        ensures
            final(self).wf(),
            final(self).text() == old(self).text(),
            yields_list(
                r,
                final(self).state(),
                p_list(old(self).text(), Seq::empty(), old(self).state()),
            ),
            r is Ok ==> no_more(old(self).text(), final(self).state(), old(self).state()),
        decreases measure(old(self).text(), old(self).state()), 31nat,
    {
        proof {
            reveal_with_fuel(p_list, 1);
            reveal_with_fuel(p_expr, 1);
        }
        let ghost s = self.text();
        let ghost st0 = self.state();
        let mut items: Vec<Expr> = Vec::new();
        loop
            invariant_except_break
                self.wf(),
                self.text() == s,
                s == old(self).text(),
                st0 == old(self).state(),
                p_list(s, exprs_view(items@), self.state()) == p_list(s, Seq::empty(), st0),
                no_more(s, self.state(), st0),
            ensures
                self.wf(),
                self.text() == s,
                p_list(s, Seq::empty(), st0) == Ok::<(Seq<ExprView>, PState), Seq<char>>(
                    (exprs_view(items@), self.state()),
                ),
                no_more(s, self.state(), st0),
            decreases measure(s, self.state()),
        {
                proof {
                    reveal_with_fuel(p_list, 1);
                    reveal_with_fuel(p_expr, 1);
                }
            let ghost before = items@;
            let e = match self.parse_expr() {
                Ok(v) => v,
                Err(e) => return Err(e),
            };
            proof {
                lemma_exprs_view_push(before, e);
            }
            items.push(e);
            if matches!(self.current, Token::Comma) {
                let ghost st1 = self.state();
                if let Err(e) = self.next_token() {
                    return Err(e);
                }
                proof {
                    lemma_advance(s, st1);
                }
            } else {
                break;
            }
        }
        Ok(items)
    }

    /// `primary := number | string | name | call | "(" expr (";" expr)* ";"? ")" | "[" elems? "]"`
    #[verifier::spinoff_prover]
    fn parse_primary(&mut self) -> (r: Result<Expr, String>)
        requires
            old(self).wf(),
        ensures
            final(self).wf(),
            final(self).text() == old(self).text(),
            yields(r, final(self).state(), p_primary(old(self).text(), old(self).state())),
            r is Ok ==> no_more(old(self).text(), final(self).state(), old(self).state()),
        decreases measure(old(self).text(), old(self).state()), 16nat,
    {
        proof {
            reveal_with_fuel(p_primary, 1);
            reveal_with_fuel(call_args, 1);
            reveal_with_fuel(paren_expr, 1);
            reveal_with_fuel(array_expr, 1);
        }
        let ghost s = self.text();
        let ghost st0 = self.state();
        match &self.current {
            Token::Number(n) => {
                let n = n.clone();
                if let Err(e) = self.next_token() {
                    return Err(e);
                }
                proof {
                    lemma_advance(s, st0);
                }
                Ok(Expr::Number(n))
            },
            Token::String(x) => {
                let x = x.clone();
                if let Err(e) = self.next_token() {
                    return Err(e);
                }
                proof {
                    lemma_advance(s, st0);
                }
                Ok(Expr::String(x))
            },
            Token::Ident(n) => {
                let name = n.clone();
                if let Err(e) = self.next_token() {
                    return Err(e);
                }
                let ghost st2 = self.state();
                proof {
                    lemma_advance(s, st0);
                }
                if !matches!(self.current, Token::LParen) {
                    return Ok(Expr::Variable(name));
                }
                if let Err(e) = self.next_token() {
                    return Err(e);
                }
                proof {
                    lemma_advance(s, st2);
                }
                self.parse_call_args(name)
            },
            Token::LParen => {
                if let Err(e) = self.next_token() {
                    return Err(e);
                }
                proof {
                    lemma_advance(s, st0);
                }
                self.parse_paren()
            },
            Token::LBracket => {
                if let Err(e) = self.next_token() {
                    return Err(e);
                }
                proof {
                    lemma_advance(s, st0);
                }
                self.parse_array()
            },
            _ => {
                let mut m = String::from_str("Unexpected token: ");
                m.append(describe_token(&self.current).as_str());
                Err(m)
            },
        }
    }

    /// `args? ")"` after `name(`.
    #[verifier::spinoff_prover]
    fn parse_call_args(&mut self, name: String) -> (r: Result<Expr, String>)
        requires
            old(self).wf(),
        ensures
            final(self).wf(),
            final(self).text() == old(self).text(),
            yields(r, final(self).state(), call_args(old(self).text(), name@, old(self).state())),
            r is Ok ==> no_more(old(self).text(), final(self).state(), old(self).state()),
        decreases measure(old(self).text(), old(self).state()), 32nat,
    {
        proof {
            reveal_with_fuel(call_args, 1);
            reveal_with_fuel(p_list, 1);
            crate::ast::lemma_exprs_view_empty();
        }
        let ghost s = self.text();
        let ghost st0 = self.state();
        if matches!(self.current, Token::RParen) {
            if let Err(e) = self.next_token() {
                return Err(e);
            }
            proof {
                lemma_advance(s, st0);
            }
            return Ok(Expr::Call { name, args: Vec::new() });
        }
        let args = match self.parse_list() {
            Ok(v) => v,
            Err(e) => return Err(e),
        };
        let ghost st1 = self.state();
        if !matches!(self.current, Token::RParen) {
            return Err(String::from_str("Expected ')'"));
        }
        if let Err(e) = self.next_token() {
            return Err(e);
        }
        proof {
            lemma_advance(s, st1);
        }
        Ok(Expr::Call { name, args })
    }

    /// `expr (";" expr)* ";"? ")"` after `(`.
    #[verifier::spinoff_prover]
    fn parse_paren(&mut self) -> (r: Result<Expr, String>)
        requires
            old(self).wf(),
        ensures
            final(self).wf(),
            final(self).text() == old(self).text(),
            yields(r, final(self).state(), paren_expr(old(self).text(), old(self).state())),
            r is Ok ==> no_more(old(self).text(), final(self).state(), old(self).state()),
        decreases measure(old(self).text(), old(self).state()), 32nat,
    {
        proof {
            reveal_with_fuel(paren_expr, 1);
            reveal_with_fuel(paren_rest, 1);
            reveal_with_fuel(p_expr, 1);
        }
        let ghost s = self.text();
        let ghost st0 = self.state();
        let first = match self.parse_expr() {
            Ok(v) => v,
            Err(e) => return Err(e),
        };
        let ghost f = first@;
        let ghost st1 = self.state();
        let mut items: Vec<Expr> = Vec::new();
        items.push(first);
        proof {
            lemma_exprs_view_push(Seq::empty(), items@[0]);
            crate::ast::lemma_exprs_view_empty();
            assert(Seq::<Expr>::empty().push(items@[0]) == items@);
        }
        loop
            invariant_except_break
                self.wf(),
                self.text() == s,
                s == old(self).text(),
                st0 == old(self).state(),
                paren_rest(s, exprs_view(items@), self.state()) == paren_rest(s, seq![f], st1),
                no_more(s, self.state(), st0),
                p_expr(s, st0) == Ok::<(ExprView, PState), Seq<char>>((f, st1)),
                no_more(s, st1, st0),
            ensures
                self.wf(),
                self.text() == s,
                s == old(self).text(),
                st0 == old(self).state(),
                paren_rest(s, seq![f], st1) == Ok::<(Seq<ExprView>, PState), Seq<char>>(
                    (exprs_view(items@), self.state()),
                ),
                no_more(s, self.state(), st0),
            decreases measure(s, self.state()),
        {
            proof {
                reveal_with_fuel(paren_expr, 1);
                reveal_with_fuel(paren_rest, 1);
                reveal_with_fuel(p_expr, 1);
            }
            if !matches!(self.current, Token::Semicolon) {
                break;
            }
            let ghost stc = self.state();
            if let Err(e) = self.next_token() {
                return Err(e);
            }
            proof {
                lemma_advance(s, stc);
            }
            if matches!(self.current, Token::RParen) {
                break;
            }
            let ghost before = items@;
            let e = match self.parse_expr() {
                Ok(v) => v,
                Err(e) => return Err(e),
            };
            proof {
                lemma_exprs_view_push(before, e);
            }
            items.push(e);
        }
        proof {
            reveal_with_fuel(paren_expr, 1);
        }
        let ghost st2 = self.state();
        if !matches!(self.current, Token::RParen) {
            return Err(String::from_str("Expected ')'"));
        }
        if let Err(e) = self.next_token() {
            return Err(e);
        }
        proof {
            lemma_advance(s, st2);
            lemma_exprs_view(items@);
        }
        if items.len() == 1 {
            Ok(items.remove(0))
        } else {
            Ok(Expr::Sequence(items))
        }
    }

    /// `elems? "]"` after `[`.
    #[verifier::spinoff_prover]
    fn parse_array(&mut self) -> (r: Result<Expr, String>)
        requires
            old(self).wf(),
        ensures
            final(self).wf(),
            final(self).text() == old(self).text(),
            yields(r, final(self).state(), array_expr(old(self).text(), old(self).state())),
            r is Ok ==> no_more(old(self).text(), final(self).state(), old(self).state()),
        decreases measure(old(self).text(), old(self).state()), 32nat,
    {
        proof {
            reveal_with_fuel(array_expr, 1);
            reveal_with_fuel(p_list, 1);
            crate::ast::lemma_exprs_view_empty();
        }
        let ghost s = self.text();
        let ghost st0 = self.state();
        if matches!(self.current, Token::RBracket) {
            if let Err(e) = self.next_token() {
                return Err(e);
            }
            proof {
                lemma_advance(s, st0);
            }
            return Ok(Expr::Array(Vec::new()));
        }
        let elems = match self.parse_list() {
            Ok(v) => v,
            Err(e) => return Err(e),
        };
        let ghost st1 = self.state();
        if !matches!(self.current, Token::RBracket) {
            return Err(String::from_str("Expected ']'"));
        }
        if let Err(e) = self.next_token() {
            return Err(e);
        }
        proof {
            lemma_advance(s, st1);
        }
        Ok(Expr::Array(elems))
    }

    /// `expr "then" expr`: a condition and its branch.
    #[verifier::spinoff_prover]
    fn parse_branch(&mut self) -> (r: Result<(Expr, Expr), String>)
        requires
            old(self).wf(),
        ensures
            final(self).wf(),
            final(self).text() == old(self).text(),
            match branch_rest(old(self).text(), old(self).state()) {
                Ok(((c, b), st)) => r matches Ok((x, y)) && x@ == c && y@ == b
                    && final(self).state() == st,
                Err(m) => r matches Err(x) && x@ == m,
            },
            r is Ok ==> no_more(old(self).text(), final(self).state(), old(self).state()),
        decreases measure(old(self).text(), old(self).state()), 31nat,
    {
        proof {
            reveal_with_fuel(branch_rest, 1);
            reveal_with_fuel(p_expr, 1);
        }
        let ghost s = self.text();
        let cond = match self.parse_expr() {
            Ok(v) => v,
            Err(e) => return Err(e),
        };
        let ghost st1 = self.state();
        if !matches!(self.current, Token::Then) {
            return Err(String::from_str("Expected 'then'"));
        }
        if let Err(e) = self.next_token() {
            return Err(e);
        }
        proof {
            lemma_advance(s, st1);
        }
        let body = match self.parse_expr() {
            Ok(v) => v,
            Err(e) => return Err(e),
        };
        Ok((cond, body))
    }

    /// An `if` expression after its keyword: `expr "then" expr`, `elif`
    /// branches, and an optional `else` branch.
    #[verifier::spinoff_prover]
    fn parse_if(&mut self) -> (r: Result<Expr, String>)
        requires
            old(self).wf(),
        ensures
            final(self).wf(),
            final(self).text() == old(self).text(),
            yields(r, final(self).state(), p_if(old(self).text(), old(self).state())),
            r is Ok ==> no_more(old(self).text(), final(self).state(), old(self).state()),
        decreases measure(old(self).text(), old(self).state()), 32nat,
    {
        proof {
            reveal_with_fuel(p_if, 1);
            reveal_with_fuel(if_rest, 1);
            reveal_with_fuel(branch_rest, 1);
            reveal_with_fuel(p_expr, 1);
        }
        let ghost s = self.text();
        let ghost st0 = self.state();
        let (c, b) = match self.parse_branch() {
            Ok(v) => v,
            Err(e) => return Err(e),
        };
        let ghost first = (c@, b@);
        let ghost st1 = self.state();
        let mut branches: Vec<(Box<Expr>, Box<Expr>)> = Vec::new();
        branches.push((Box::new(c), Box::new(b)));
        proof {
            lemma_branches_view_push(Seq::empty(), branches@[0]);
            assert(Seq::<(Box<Expr>, Box<Expr>)>::empty().push(branches@[0]) == branches@);
        }
        while matches!(self.current, Token::Elif)
            invariant
                self.wf(),
                self.text() == s,
                s == old(self).text(),
                st0 == old(self).state(),
                p_if(s, st0) == if_rest(s, seq![first], st1),
                if_rest(s, branches_view(branches@), self.state()) == if_rest(s, seq![first], st1),
                no_more(s, self.state(), st0),
            decreases measure(s, self.state()),
        {
                proof {
                    reveal_with_fuel(p_if, 1);
                    reveal_with_fuel(if_rest, 1);
                    reveal_with_fuel(branch_rest, 1);
                    reveal_with_fuel(p_expr, 1);
                }
            let ghost stc = self.state();
            if let Err(e) = self.next_token() {
                return Err(e);
            }
            proof {
                lemma_advance(s, stc);
            }
            let (c, b) = match self.parse_branch() {
                Ok(v) => v,
                Err(e) => return Err(e),
            };
            let ghost before = branches@;
            let pair = (Box::new(c), Box::new(b));
            proof {
                lemma_branches_view_push(before, pair);
            }
            branches.push(pair);
        }
        proof {
            reveal_with_fuel(p_if, 1);
            reveal_with_fuel(if_rest, 1);
            reveal_with_fuel(p_expr, 1);
        }
        if matches!(self.current, Token::Else) {
            let ghost stc = self.state();
            if let Err(e) = self.next_token() {
                return Err(e);
            }
            proof {
                lemma_advance(s, stc);
            }
            let e = match self.parse_expr() {
                Ok(v) => v,
                Err(e) => return Err(e),
            };
            Ok(Expr::If { branches, else_branch: Some(Box::new(e)) })
        } else {
            Ok(Expr::If { branches, else_branch: None })
        }
    }

    /// A `while` loop after its keyword: `expr "do" expr`.
    #[verifier::spinoff_prover]
    fn parse_while(&mut self) -> (r: Result<Expr, String>)
        requires
            old(self).wf(),
        ensures
            final(self).wf(),
            final(self).text() == old(self).text(),
            yields(r, final(self).state(), p_while(old(self).text(), old(self).state())),
            r is Ok ==> no_more(old(self).text(), final(self).state(), old(self).state()),
        decreases measure(old(self).text(), old(self).state()), 31nat,
    {
        proof {
            reveal_with_fuel(p_while, 1);
            reveal_with_fuel(p_expr, 1);
        }
        let ghost s = self.text();
        let cond = match self.parse_expr() {
            Ok(v) => v,
            Err(e) => return Err(e),
        };
        let ghost st1 = self.state();
        if !matches!(self.current, Token::Do) {
            return Err(String::from_str("Expected 'do'"));
        }
        if let Err(e) = self.next_token() {
            return Err(e);
        }
        proof {
            lemma_advance(s, st1);
        }
        let body = match self.parse_expr() {
            Ok(v) => v,
            Err(e) => return Err(e),
        };
        Ok(Expr::While { cond: Box::new(cond), body: Box::new(body) })
    }

    /// `"for" name "in" expr ".." expr ("step" expr)? "do" expr`
    #[verifier::spinoff_prover]
    fn parse_for(&mut self) -> (r: Result<Expr, String>)
        requires
            old(self).wf(),
        ensures
            final(self).wf(),
            final(self).text() == old(self).text(),
            yields(r, final(self).state(), p_for(old(self).text(), old(self).state())),
            r is Ok ==> no_more(old(self).text(), final(self).state(), old(self).state()),
        decreases measure(old(self).text(), old(self).state()), 29nat,
    {
        proof {
            reveal_with_fuel(p_for, 1);
            reveal_with_fuel(p_expr, 1);
            reveal_with_fuel(for_rest, 1);
        }
        let ghost s = self.text();
        let ghost st0 = self.state();
        if let Err(e) = self.next_token() {
            return Err(e);
        }
        let ghost st1 = self.state();
        let var = match &self.current {
            Token::Ident(v) => v.clone(),
            _ => return Err(String::from_str("Expected loop variable after 'for'")),
        };
        if let Err(e) = self.next_token() {
            return Err(e);
        }
        let ghost st2 = self.state();
        if !matches!(self.current, Token::In) {
            return Err(String::from_str("Expected 'in'"));
        }
        if let Err(e) = self.next_token() {
            return Err(e);
        }
        proof {
            lemma_advance(s, st0);
            lemma_advance(s, st1);
            lemma_advance(s, st2);
        }
        let start = match self.parse_expr() {
            Ok(v) => v,
            Err(e) => return Err(e),
        };
        let ghost st4 = self.state();
        if !matches!(self.current, Token::DotDot) {
            return Err(String::from_str("Expected '..'"));
        }
        if let Err(e) = self.next_token() {
            return Err(e);
        }
        proof {
            lemma_advance(s, st4);
        }
        let end = match self.parse_expr() {
            Ok(v) => v,
            Err(e) => return Err(e),
        };
        self.parse_for_rest(var, start, end)
    }

    /// `("step" expr)? "do" expr`: the rest of a `for` loop.
    #[verifier::spinoff_prover]
    fn parse_for_rest(&mut self, var: String, start: Expr, end: Expr) -> (r: Result<Expr, String>)
        requires
            old(self).wf(),
        ensures
            final(self).wf(),
            final(self).text() == old(self).text(),
            yields(
                r,
                final(self).state(),
                for_rest(old(self).text(), var@, start@, end@, old(self).state()),
            ),
            r is Ok ==> no_more(old(self).text(), final(self).state(), old(self).state()),
        decreases measure(old(self).text(), old(self).state()), 31nat,
    {
        proof {
            reveal_with_fuel(for_rest, 1);
            reveal_with_fuel(p_expr, 1);
            reveal_with_fuel(for_body, 1);
        }
        let ghost s = self.text();
        let ghost st0 = self.state();
        if matches!(self.current, Token::Step) {
            if let Err(e) = self.next_token() {
                return Err(e);
            }
            proof {
                lemma_advance(s, st0);
            }
            let step = match self.parse_expr() {
                Ok(v) => v,
                Err(e) => return Err(e),
            };
            self.parse_for_body(var, start, end, Some(Box::new(step)))
        } else {
            self.parse_for_body(var, start, end, None)
        }
    }

    /// `"do" expr`: the body of a `for` loop.
    #[verifier::spinoff_prover]
    fn parse_for_body(&mut self, var: String, start: Expr, end: Expr, step: Option<Box<Expr>>) -> (r:
        Result<Expr, String>)
        requires
            old(self).wf(),
        ensures
            final(self).wf(),
            final(self).text() == old(self).text(),
            yields(
                r,
                final(self).state(),
                for_body(
                    old(self).text(),
                    var@,
                    start@,
                    end@,
                    crate::ast::opt_view(step),
                    old(self).state(),
                ),
            ),
            r is Ok ==> no_more(old(self).text(), final(self).state(), old(self).state()),
        decreases measure(old(self).text(), old(self).state()), 30nat,
    {
        proof {
            reveal_with_fuel(for_body, 1);
            reveal_with_fuel(p_expr, 1);
        }
        let ghost s = self.text();
        let ghost st0 = self.state();
        if !matches!(self.current, Token::Do) {
            return Err(String::from_str("Expected 'do'"));
        }
        if let Err(e) = self.next_token() {
            return Err(e);
        }
        proof {
            lemma_advance(s, st0);
        }
        let body = match self.parse_expr() {
            Ok(v) => v,
            Err(e) => return Err(e),
        };
        Ok(
            Expr::For {
                var,
                start: Box::new(start),
                end: Box::new(end),
                step,
                body: Box::new(body),
            },
        )
    }

    /// `"fn" name "(" params? ")" "=" expr`
    #[verifier::spinoff_prover]
    fn parse_function_def(&mut self) -> (r: Result<Expr, String>)
        requires
            old(self).wf(),
        ensures
            final(self).wf(),
            final(self).text() == old(self).text(),
            yields(r, final(self).state(), p_fndef(old(self).text(), old(self).state())),
            r is Ok ==> no_more(old(self).text(), final(self).state(), old(self).state()),
        decreases measure(old(self).text(), old(self).state()), 29nat,
    {
        proof {
            reveal_with_fuel(p_fndef, 1);
            reveal_with_fuel(p_params, 1);
            reveal_with_fuel(fn_body, 1);
        }
        let ghost s = self.text();
        let ghost st0 = self.state();
        if let Err(e) = self.next_token() {
            return Err(e);
        }
        let ghost st1 = self.state();
        let name = match &self.current {
            Token::Ident(n) => n.clone(),
            _ => return Err(String::from_str("Expected function name")),
        };
        if let Err(e) = self.next_token() {
            return Err(e);
        }
        let ghost st2 = self.state();
        if !matches!(self.current, Token::LParen) {
            return Err(String::from_str("Expected '('"));
        }
        if let Err(e) = self.next_token() {
            return Err(e);
        }
        proof {
            lemma_advance(s, st0);
            lemma_advance(s, st1);
            lemma_advance(s, st2);
        }
        if matches!(self.current, Token::RParen) {
            proof {
                assert(names_view(Seq::<String>::empty()) == Seq::<Seq<char>>::empty());
            }
            return self.parse_fn_body(name, Vec::new());
        }
        let params = match self.parse_params() {
            Ok(v) => v,
            Err(e) => return Err(e),
        };
        self.parse_fn_body(name, params)
    }

    /// `name ("," name)*` up to the closing `)`, which stays current.
    #[verifier::spinoff_prover]
    fn parse_params(&mut self) -> (r: Result<Vec<String>, String>)
        requires
            old(self).wf(),
        ensures
            final(self).wf(),
            final(self).text() == old(self).text(),
            match p_params(old(self).text(), Seq::empty(), old(self).state()) {
                Ok((ps, st)) => r matches Ok(v) && names_view(v@) == ps && final(self).state()
                    == st,
                Err(m) => r matches Err(x) && x@ == m,
            },
            r is Ok ==> no_more(old(self).text(), final(self).state(), old(self).state()),
    {
        proof {
            reveal_with_fuel(p_params, 1);
        }
        let ghost s = self.text();
        let ghost st0 = self.state();
        let mut params: Vec<String> = Vec::new();
        loop
            invariant_except_break
                self.wf(),
                self.text() == s,
                s == old(self).text(),
                st0 == old(self).state(),
                p_params(s, names_view(params@), self.state()) == p_params(s, Seq::empty(), st0),
                no_more(s, self.state(), st0),
            ensures
                self.wf(),
                self.text() == s,
                p_params(s, Seq::empty(), st0) == Ok::<(Seq<Seq<char>>, PState), Seq<char>>(
                    (names_view(params@), self.state()),
                ),
                no_more(s, self.state(), st0),
            decreases measure(s, self.state()),
        {
                proof {
                    reveal_with_fuel(p_params, 1);
                }
            let ghost stc = self.state();
            let p = if let Token::Ident(p) = &self.current {
                p.clone()
            } else {
                return Err(String::from_str("Expected parameter name"));
            };
            let ghost before = params@;
            proof {
                lemma_names_view_push(before, p);
            }
            params.push(p);
            if let Err(e) = self.next_token() {
                return Err(e);
            }
            let ghost st1 = self.state();
            proof {
                lemma_advance(s, stc);
            }
            if matches!(self.current, Token::Comma) {
                if let Err(e) = self.next_token() {
                    return Err(e);
                }
                proof {
                    lemma_advance(s, st1);
                }
            } else if matches!(self.current, Token::RParen) {
                break;
            } else {
                return Err(String::from_str("Expected ',' or ')'"));
            }
        }
        Ok(params)
    }

    /// `")" "=" expr`: the rest of a function definition, `)` being current.
    #[verifier::spinoff_prover]
    fn parse_fn_body(&mut self, name: String, params: Vec<String>) -> (r: Result<Expr, String>)
        requires
            old(self).wf(),
        ensures
            final(self).wf(),
            final(self).text() == old(self).text(),
            yields(
                r,
                final(self).state(),
                fn_body(old(self).text(), name@, names_view(params@), old(self).state()),
            ),
            r is Ok ==> no_more(old(self).text(), final(self).state(), old(self).state()),
        decreases measure(old(self).text(), old(self).state()), 30nat,
    {
        proof {
            reveal_with_fuel(fn_body, 1);
            reveal_with_fuel(p_expr, 1);
        }
        let ghost s = self.text();
        let ghost st0 = self.state();
        if let Err(e) = self.next_token() {
            return Err(e);
        }
        let ghost st1 = self.state();
        if !matches!(self.current, Token::Assign) {
            return Err(String::from_str("Expected '='"));
        }
        if let Err(e) = self.next_token() {
            return Err(e);
        }
        proof {
            lemma_advance(s, st0);
            lemma_advance(s, st1);
        }
        let body = match self.parse_expr() {
            Ok(v) => v,
            Err(e) => return Err(e),
        };
        Ok(Expr::FunctionDef { name, params, body: Box::new(body) })
    }
}


/// Parses the program held by `input` (shorter than `usize::MAX` bytes, as
/// every `str` is).
pub fn parse_source(input: &str) -> (r: Result<Expr, String>)
    requires
        crate::text::utf8_len(input@) < usize::MAX,
    ensures
        match parse_program(input@) {
            Ok(e) => r matches Ok(x) && x@ == e,
            Err(m) => r matches Err(x) && x@ == m,
        },
{
    let lexer = Lexer::new(input);
    let mut parser = match Parser::new(lexer) {
        Ok(p) => p,
        Err(e) => return Err(e),
    };
    parser.parse()
}

} // verus!
