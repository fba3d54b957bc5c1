//! The parser: turns the tokens of a program into statements, reporting
//! the errors it finds and going on after each (see [`crate::grammar`]).
use vstd::prelude::*;

use crate::expressions::{Expr, ExprView, exprs_view, lemma_exprs_view, lemma_exprs_view_push};
use crate::grammar::{
    ParseErrView, for_body, for_increment, if_branches, while_body, advance, and_expr, and_rest, argument_list, assignment, at_end, begins_declaration, block, block_rest, call, call_rest, comparison, comparison_rest, declaration, end_of_input, equality, equality_rest, expression, expression_statement, factor, factor_rest, finish_call, for_clauses, for_loop, for_statement, if_statement, is_comparison_op, is_equality_op, is_factor_op, is_term_op, is_unary_op, kind, lemma_and_rest_fail, lemma_and_rest_step, lemma_and_rest_stop, lemma_argument_list_fail, lemma_argument_list_step, lemma_argument_list_stop, lemma_block_rest_end, lemma_block_rest_step, lemma_call_rest_fail, lemma_call_rest_step, lemma_call_rest_stop, lemma_comparison_rest_fail, lemma_comparison_rest_step, lemma_comparison_rest_stop, lemma_equality_rest_fail, lemma_equality_rest_step, lemma_equality_rest_stop, lemma_factor_rest_fail, lemma_factor_rest_step, lemma_factor_rest_stop, lemma_or_rest_fail, lemma_or_rest_step, lemma_or_rest_stop, lemma_program_rest_end, lemma_program_rest_step, lemma_synchronize_rest, lemma_term_rest_fail, lemma_term_rest_step, lemma_term_rest_stop, or_expr, or_rest, parsable, perr, primary, print_statement, program, program_rest, push_some, quiet, statement, synchronize, synchronize_rest, term, term_rest, unary, var_declaration, while_statement,
};
use crate::statements::{Stmt, StmtView, lemma_stmts_view_push, opt_expr_view, stmts_view};
use crate::text::{decimal, push_decimal, push_str, string_of};
use crate::tokens::{Literal, LiteralView, Token, TokenType, TokenView, tokens_view};

verus! {

/// A parse error: the token it was found at, and what went wrong.
#[derive(Debug)]
pub struct ParseErr {
    pub token: Token,
    pub message: String,
}

impl View for ParseErr {
    type V = ParseErrView;

    open spec fn view(&self) -> ParseErrView {
        ParseErrView { token: self.token@, message: self.message@ }
    }
}

/// The text a parse error is reported with.
pub open spec fn full_text_of(e: ParseErrView) -> Seq<char> {
    "parse error: "@ + e.message + " At token '"@ + e.token.lexeme + "' on line "@ + decimal(e.token.line as nat)
        + " column "@ + decimal(e.token.column as nat)
}

impl ParseErr {
    /// The error `message` at (a copy of) `token`.
    pub fn new(token: &Token, message: String) -> (r: Self)
        ensures
            r@ == perr(token@, message@),
    {
        ParseErr { token: token.duplicate(), message }
    }

    /// The text the error is reported with: its message, and the lexeme,
    /// line and column of its token.
    pub fn full_text(&self) -> (r: String)
        ensures
            r@ == full_text_of(self@),
    {
        let mut text = string_of("parse error: ");
        push_str(&mut text, self.message.as_str());
        push_str(&mut text, " At token '");
        push_str(&mut text, self.token.lexeme.as_str());
        push_str(&mut text, "' on line ");
        push_decimal(&mut text, self.token.line);
        push_str(&mut text, " column ");
        push_decimal(&mut text, self.token.column);
        text
    }
}

/// The view of the outcome of parsing an expression.
pub open spec fn expr_result(r: Result<Expr, ParseErr>) -> Result<ExprView, ParseErrView> {
    match r {
        Ok(e) => Ok(e@),
        Err(e) => Err(e@),
    }
}

/// The view of the outcome of parsing a statement.
pub open spec fn stmt_result(r: Result<Stmt, ParseErr>) -> Result<StmtView, ParseErrView> {
    match r {
        Ok(s) => Ok(s@),
        Err(e) => Err(e@),
    }
}

/// The view of the outcome of parsing a block.
pub open spec fn stmts_result(r: Result<Vec<Stmt>, ParseErr>) -> Result<Seq<StmtView>, ParseErrView> {
    match r {
        Ok(ss) => Ok(stmts_view(ss@)),
        Err(e) => Err(e@),
    }
}

/// The view of an optional statement.
pub open spec fn opt_stmt_view(s: Option<Stmt>) -> Option<StmtView> {
    match s {
        Some(s) => Some(s@),
        None => None,
    }
}

/// The views of a sequence of errors.
pub open spec fn errs_view(es: Seq<ParseErr>) -> Seq<ParseErrView> {
    es.map_values(|e: ParseErr| e@)
}

/// Parses tokens, one declaration after another.
pub struct Parser {
    tokens: Vec<Token>,
    current: usize,
    errors: Vec<ParseErr>,
}

/// `after` is `before` with the same tokens and errors, and a position
/// no earlier.
spec fn expr_frame(before: Parser, after: Parser) -> bool {
    &&& after.wf()
    &&& after.tokens@ == before.tokens@
    &&& after.errors@ == before.errors@
    &&& before.current <= after.current
}

/// `after` is `before` with the same tokens, a position no earlier, and
/// the errors `errs` reported after those of `before`.
spec fn stmt_step(before: Parser, after: Parser, errs: Seq<ParseErrView>) -> bool {
    &&& after.wf()
    &&& after.tokens@ == before.tokens@
    &&& before.current <= after.current
    &&& errs_view(after.errors@) == errs_view(before.errors@) + errs
}

impl Parser {
    /// The views of the tokens.
    pub closed spec fn toks(&self) -> Seq<TokenView> {
        tokens_view(self.tokens@)
    }

    /// The position of the current token.
    pub closed spec fn pos(&self) -> int {
        self.current as int
    }

    /// The errors reported so far.
    pub closed spec fn reported(&self) -> Seq<ParseErrView> {
        errs_view(self.errors@)
    }

    /// The tokens can be parsed and the current token is not the `Eof`.
    pub closed spec fn wf(&self) -> bool {
        &&& parsable(self.toks())
        &&& self.current + 1 < self.tokens.len()
    }

    /// A parser at the first of `tokens`, with no errors reported.
    pub fn new(tokens: Vec<Token>) -> (r: Self)
        ensures
            r.toks() == tokens_view(tokens@),
            r.pos() == 0,
            r.reported() == Seq::<ParseErrView>::empty(),
    {
        let r = Self { tokens, current: 0, errors: Vec::new() };
        assert(r.reported() =~= Seq::<ParseErrView>::empty());
        r
    }

    proof fn lemma_toks(&self)
        ensures
            self.toks().len() == self.tokens.len(),
            forall|i: int| 0 <= i < self.tokens.len() ==> #[trigger] self.toks()[i] == self.tokens@[i]@,
    {
    }

    fn is_at_end(&self) -> (r: bool)
        requires
            self.wf(),
        ensures
            r == at_end(self.toks(), self.pos()),
    {
        proof {
            self.lemma_toks();
        }
        self.tokens[self.current + 1].token_type == TokenType::Eof
    }

    fn peek(&self) -> (r: Token)
        requires
            self.wf(),
        ensures
            r@ == self.toks()[self.pos() + 1],
    {
        proof {
            self.lemma_toks();
        }
        self.tokens[self.current + 1].duplicate()
    }

    fn current_token(&self) -> (r: Token)
        requires
            self.wf(),
        ensures
            r@ == self.toks()[self.pos()],
    {
        proof {
            self.lemma_toks();
        }
        self.tokens[self.current].duplicate()
    }

    fn prev_token(&self) -> (r: Token)
        requires
            self.wf(),
            self.current >= 1,
        ensures
            r@ == self.toks()[self.pos() - 1],
    {
        proof {
            self.lemma_toks();
        }
        self.tokens[self.current - 1].duplicate()
    }

    fn consume(&mut self) -> (r: Result<Token, ParseErr>)
        requires
            old(self).wf(),
        ensures
            expr_frame(*old(self), *final(self)),
            final(self).pos() == advance(old(self).toks(), old(self).pos()),
            match r {
                Ok(t) => !at_end(old(self).toks(), old(self).pos()) && t@ == old(self).toks()[old(self).pos()],
                Err(e) => at_end(old(self).toks(), old(self).pos()) && e@ == end_of_input(
                    old(self).toks()[old(self).pos()],
                ),
            },
    {
        let current = self.current_token();
        if !self.is_at_end() {
            self.current = self.current + 1;
            Ok(current)
        } else {
            Err(self.end_of_input_error())
        }
    }

    fn end_of_input_error(&self) -> (e: ParseErr)
        requires
            self.wf(),
        ensures
            e@ == end_of_input(self.toks()[self.pos()]),
    {
        let current = self.current_token();
        let mut message = string_of("Unexpected end of input at token '");
        push_str(&mut message, current.lexeme.as_str());
        push_str(&mut message, "'");
        ParseErr::new(&current, message)
    }

    fn unconsume(&mut self) -> (r: Token)
        requires
            old(self).wf(),
        ensures
            final(self).wf(),
            final(self).tokens@ == old(self).tokens@,
            final(self).errors@ == old(self).errors@,
            final(self).current == if old(self).current > 0 { old(self).current - 1 } else { 0 },
            r@ == final(self).toks()[final(self).pos()],
    {
        if self.current > 0 {
            self.current = self.current - 1;
        }
        self.current_token()
    }

    fn match_and_consume(&mut self, token_type: TokenType) -> (r: Option<Token>)
        requires
            old(self).wf(),
        ensures
            expr_frame(*old(self), *final(self)),
            if kind(old(self).toks(), old(self).pos()) == token_type {
                &&& r matches Some(t) && t@ == old(self).toks()[old(self).pos()]
                &&& final(self).pos() == advance(old(self).toks(), old(self).pos())
            } else {
                &&& r is None
                &&& final(self).current == old(self).current
            },
    {
        let token = self.current_token();
        if token.token_type == token_type {
            let _ = self.consume();
            Some(token)
        } else {
            None
        }
    }

    fn match_one_of_and_consume(&mut self, token_types: Vec<TokenType>) -> (r: Option<Token>)
        requires
            old(self).wf(),
        ensures
            expr_frame(*old(self), *final(self)),
            if token_types@.contains(kind(old(self).toks(), old(self).pos())) {
                &&& r matches Some(t) && t@ == old(self).toks()[old(self).pos()]
                &&& final(self).pos() == advance(old(self).toks(), old(self).pos())
            } else {
                &&& r is None
                &&& final(self).current == old(self).current
            },
    {
        let token = self.current_token();
        let mut matches = false;
        let mut i: usize = 0;
        while i < token_types.len()
            invariant
                i <= token_types.len(),
                matches == (exists|j: int| 0 <= j < i && token_types@[j] == token.token_type),
            decreases token_types.len() - i,
        {
            if token.token_type == token_types[i] {
                matches = true;
            }
            i = i + 1;
        }
        if matches {
            let _ = self.consume();
            Some(token)
        } else {
            None
        }
    }

    fn match_and_consume_or_err(&mut self, token_type: TokenType, message: String) -> (r: Result<Token, ParseErr>)
        requires
            old(self).wf(),
        ensures
            expr_frame(*old(self), *final(self)),
            if kind(old(self).toks(), old(self).pos()) == token_type {
                &&& r matches Ok(t) && t@ == old(self).toks()[old(self).pos()]
                &&& final(self).pos() == advance(old(self).toks(), old(self).pos())
            } else {
                &&& r matches Err(e) && e@ == perr(old(self).toks()[old(self).pos()], message@)
                &&& final(self).current == old(self).current
            },
    {
        let token = self.current_token();
        if token.token_type == token_type {
            let _ = self.consume();
            Ok(token)
        } else {
            Err(ParseErr::new(&self.current_token(), message))
        }
    }

    fn current_token_matches(&self, token_type: TokenType) -> (r: bool)
        requires
            self.wf(),
        ensures
            r == (!at_end(self.toks(), self.pos()) && kind(self.toks(), self.pos()) == token_type),
    {
        if self.is_at_end() {
            false
        } else {
            self.current_token().token_type == token_type
        }
    }

    fn create_parse_expr_err(&self, token: &Token, message: String) -> (r: Result<Expr, ParseErr>)
        ensures
            r matches Err(e) && e@ == perr(token@, message@),
    {
        Err(ParseErr::new(token, message))
    }

    #[verifier::spinoff_prover]
    fn parse_expression(&mut self) -> (r: Result<Expr, ParseErr>)
        requires
            old(self).wf(),
        ensures
            expr_frame(*old(self), *final(self)),
            r is Ok ==> old(self).current < final(self).current,
            expression(old(self).toks(), old(self).pos()) == (final(self).pos(), expr_result(r)),
        decreases old(self).tokens.len() - old(self).current, 21int,
    {
        self.parse_assignment_expression()
    }

    #[verifier::spinoff_prover]
    fn parse_assignment_expression(&mut self) -> (r: Result<Expr, ParseErr>)
        requires
            old(self).wf(),
        ensures
            expr_frame(*old(self), *final(self)),
            r is Ok ==> old(self).current < final(self).current,
            assignment(old(self).toks(), old(self).pos()) == (final(self).pos(), expr_result(r)),
        decreases old(self).tokens.len() - old(self).current, 20int,
    {
        let expr = match self.parse_or_expression() {
            Err(e) => return Err(e),
            Ok(e) => e,
        };
        if self.match_and_consume(TokenType::Equal).is_some() {
            let equals = self.prev_token();
            let value = match self.parse_assignment_expression() {
                Err(e) => return Err(e),
                Ok(v) => v,
            };
            match expr {
                Expr::Variable(name) => Ok(Expr::Assign(name, Box::new(value))),
                _ => self.create_parse_expr_err(&equals, string_of("Invalid asignment target.")),
            }
        } else {
            Ok(expr)
        }
    }

    #[verifier::spinoff_prover]
    fn parse_or_expression(&mut self) -> (r: Result<Expr, ParseErr>)
        requires
            old(self).wf(),
        ensures
            expr_frame(*old(self), *final(self)),
            r is Ok ==> old(self).current < final(self).current,
            or_expr(old(self).toks(), old(self).pos()) == (final(self).pos(), expr_result(r)),
        decreases old(self).tokens.len() - old(self).current, 19int,
    {
        let expr = match self.parse_and_expression() {
            Err(e) => return Err(e),
            Ok(e) => e,
        };
        self.parse_or_rest(expr)
    }

    /// The operands joined by `or` that follow `left`.
    #[verifier::spinoff_prover]
    fn parse_or_rest(&mut self, left: Expr) -> (r: Result<Expr, ParseErr>)
        requires
            old(self).wf(),
            old(self).current >= 1,
        ensures
            expr_frame(*old(self), *final(self)),
            or_rest(old(self).toks(), old(self).pos(), left@) == (final(self).pos(), expr_result(r)),
        decreases old(self).tokens.len() - old(self).current, 18int,
    {
        let ghost c = self.pos();
        if self.match_and_consume(TokenType::Or).is_none() {
            proof {
                lemma_or_rest_stop(self.toks(), c, left@);
            }
            return Ok(left);
        }
        let operator = self.prev_token();
        let right = match self.parse_and_expression() {
            Err(e) => {
                proof {
                    lemma_or_rest_fail(self.toks(), c, left@, self.pos(), e@);
                }
                return Err(e);
            },
            Ok(e) => e,
        };
        proof {
            lemma_or_rest_step(self.toks(), c, left@, right@, self.pos());
        }
        self.parse_or_rest(Expr::Logical(Box::new(left), operator, Box::new(right)))
    }

    #[verifier::spinoff_prover]
    fn parse_and_expression(&mut self) -> (r: Result<Expr, ParseErr>)
        requires
            old(self).wf(),
        ensures
            expr_frame(*old(self), *final(self)),
            r is Ok ==> old(self).current < final(self).current,
            and_expr(old(self).toks(), old(self).pos()) == (final(self).pos(), expr_result(r)),
        decreases old(self).tokens.len() - old(self).current, 17int,
    {
        let expr = match self.parse_equality_expression() {
            Err(e) => return Err(e),
            Ok(e) => e,
        };
        self.parse_and_rest(expr)
    }

    /// The operands joined by `and` that follow `left`.
    #[verifier::spinoff_prover]
    fn parse_and_rest(&mut self, left: Expr) -> (r: Result<Expr, ParseErr>)
        requires
            old(self).wf(),
            old(self).current >= 1,
        ensures
            expr_frame(*old(self), *final(self)),
            and_rest(old(self).toks(), old(self).pos(), left@) == (final(self).pos(), expr_result(r)),
        decreases old(self).tokens.len() - old(self).current, 16int,
    {
        let ghost c = self.pos();
        if self.match_and_consume(TokenType::And).is_none() {
            proof {
                lemma_and_rest_stop(self.toks(), c, left@);
            }
            return Ok(left);
        }
        let operator = self.prev_token();
        let right = match self.parse_equality_expression() {
            Err(e) => {
                proof {
                    lemma_and_rest_fail(self.toks(), c, left@, self.pos(), e@);
                }
                return Err(e);
            },
            Ok(e) => e,
        };
        proof {
            lemma_and_rest_step(self.toks(), c, left@, right@, self.pos());
        }
        self.parse_and_rest(Expr::Logical(Box::new(left), operator, Box::new(right)))
    }

    #[verifier::spinoff_prover]
    fn parse_equality_expression(&mut self) -> (r: Result<Expr, ParseErr>)
        requires
            old(self).wf(),
        ensures
            expr_frame(*old(self), *final(self)),
            r is Ok ==> old(self).current < final(self).current,
            equality(old(self).toks(), old(self).pos()) == (final(self).pos(), expr_result(r)),
        decreases old(self).tokens.len() - old(self).current, 15int,
    {
        let expr = match self.parse_comparison_expression() {
            Err(e) => return Err(e),
            Ok(e) => e,
        };
        self.parse_equality_rest(expr)
    }

    /// The `!=` and `==` operands that follow `left`.
    #[verifier::spinoff_prover]
    fn parse_equality_rest(&mut self, left: Expr) -> (r: Result<Expr, ParseErr>)
        requires
            old(self).wf(),
            old(self).current >= 1,
        ensures
            expr_frame(*old(self), *final(self)),
            equality_rest(old(self).toks(), old(self).pos(), left@) == (final(self).pos(), expr_result(r)),
        decreases old(self).tokens.len() - old(self).current, 14int,
    {
        let ghost c = self.pos();
        let ops = vec![TokenType::BangEqual, TokenType::EqualEqual];
        assert(ops@.len() == 2 && ops@[0] == TokenType::BangEqual && ops@[1] == TokenType::EqualEqual);
        proof {
            lemma_one_of_two(ops@, kind(self.toks(), c));
        }
        let operator = match self.match_one_of_and_consume(ops) {
            None => {
                proof {
                    lemma_equality_rest_stop(self.toks(), c, left@);
                }
                return Ok(left);
            },
            Some(op) => op,
        };
        let right = match self.parse_comparison_expression() {
            Err(e) => {
                proof {
                    lemma_equality_rest_fail(self.toks(), c, left@, self.pos(), e@);
                }
                return Err(e);
            },
            Ok(e) => e,
        };
        proof {
            lemma_equality_rest_step(self.toks(), c, left@, right@, self.pos());
        }
        self.parse_equality_rest(Expr::Binary(Box::new(left), operator, Box::new(right)))
    }

    #[verifier::spinoff_prover]
    fn parse_comparison_expression(&mut self) -> (r: Result<Expr, ParseErr>)
        requires
            old(self).wf(),
        ensures
            expr_frame(*old(self), *final(self)),
            r is Ok ==> old(self).current < final(self).current,
            comparison(old(self).toks(), old(self).pos()) == (final(self).pos(), expr_result(r)),
        decreases old(self).tokens.len() - old(self).current, 13int,
    {
        let expr = match self.parse_term_expression() {
            Err(e) => return Err(e),
            Ok(e) => e,
        };
        self.parse_comparison_rest(expr)
    }

    /// The `>`, `>=`, `<` and `<=` operands that follow `left`.
    #[verifier::spinoff_prover]
    fn parse_comparison_rest(&mut self, left: Expr) -> (r: Result<Expr, ParseErr>)
        requires
            old(self).wf(),
            old(self).current >= 1,
        ensures
            expr_frame(*old(self), *final(self)),
            comparison_rest(old(self).toks(), old(self).pos(), left@) == (final(self).pos(), expr_result(r)),
        decreases old(self).tokens.len() - old(self).current, 12int,
    {
        let ghost c = self.pos();
        let ops = vec![TokenType::Greater, TokenType::GreaterEqual, TokenType::Less, TokenType::LessEqual];
        assert(ops@.len() == 4 && ops@[0] == TokenType::Greater && ops@[1] == TokenType::GreaterEqual && ops@[2] == TokenType::Less && ops@[3] == TokenType::LessEqual);
        proof {
            lemma_one_of_four(ops@, kind(self.toks(), c));
        }
        let operator = match self.match_one_of_and_consume(ops) {
            None => {
                proof {
                    lemma_comparison_rest_stop(self.toks(), c, left@);
                }
                return Ok(left);
            },
            Some(op) => op,
        };
        let right = match self.parse_term_expression() {
            Err(e) => {
                proof {
                    lemma_comparison_rest_fail(self.toks(), c, left@, self.pos(), e@);
                }
                return Err(e);
            },
            Ok(e) => e,
        };
        proof {
            lemma_comparison_rest_step(self.toks(), c, left@, right@, self.pos());
        }
        self.parse_comparison_rest(Expr::Binary(Box::new(left), operator, Box::new(right)))
    }

    #[verifier::spinoff_prover]
    fn parse_term_expression(&mut self) -> (r: Result<Expr, ParseErr>)
        requires
            old(self).wf(),
        ensures
            expr_frame(*old(self), *final(self)),
            r is Ok ==> old(self).current < final(self).current,
            term(old(self).toks(), old(self).pos()) == (final(self).pos(), expr_result(r)),
        decreases old(self).tokens.len() - old(self).current, 11int,
    {
        let expr = match self.parse_factor_expression() {
            Err(e) => return Err(e),
            Ok(e) => e,
        };
        self.parse_term_rest(expr)
    }

    /// The `-` and `+` operands that follow `left`.
    #[verifier::spinoff_prover]
    fn parse_term_rest(&mut self, left: Expr) -> (r: Result<Expr, ParseErr>)
        requires
            old(self).wf(),
            old(self).current >= 1,
        ensures
            expr_frame(*old(self), *final(self)),
            term_rest(old(self).toks(), old(self).pos(), left@) == (final(self).pos(), expr_result(r)),
        decreases old(self).tokens.len() - old(self).current, 10int,
    {
        let ghost c = self.pos();
        let ops = vec![TokenType::Minus, TokenType::Plus];
        assert(ops@.len() == 2 && ops@[0] == TokenType::Minus && ops@[1] == TokenType::Plus);
        proof {
            lemma_one_of_two(ops@, kind(self.toks(), c));
        }
        let operator = match self.match_one_of_and_consume(ops) {
            None => {
                proof {
                    lemma_term_rest_stop(self.toks(), c, left@);
                }
                return Ok(left);
            },
            Some(op) => op,
        };
        let right = match self.parse_factor_expression() {
            Err(e) => {
                proof {
                    lemma_term_rest_fail(self.toks(), c, left@, self.pos(), e@);
                }
                return Err(e);
            },
            Ok(e) => e,
        };
        proof {
            lemma_term_rest_step(self.toks(), c, left@, right@, self.pos());
        }
        self.parse_term_rest(Expr::Binary(Box::new(left), operator, Box::new(right)))
    }

    #[verifier::spinoff_prover]
    fn parse_factor_expression(&mut self) -> (r: Result<Expr, ParseErr>)
        requires
            old(self).wf(),
        ensures
            expr_frame(*old(self), *final(self)),
            r is Ok ==> old(self).current < final(self).current,
            factor(old(self).toks(), old(self).pos()) == (final(self).pos(), expr_result(r)),
        decreases old(self).tokens.len() - old(self).current, 9int,
    {
        let expr = match self.parse_unary_expression() {
            Err(e) => return Err(e),
            Ok(e) => e,
        };
        self.parse_factor_rest(expr)
    }

    /// The `/` and `*` operands that follow `left`.
    #[verifier::spinoff_prover]
    fn parse_factor_rest(&mut self, left: Expr) -> (r: Result<Expr, ParseErr>)
        requires
            old(self).wf(),
            old(self).current >= 1,
        ensures
            expr_frame(*old(self), *final(self)),
            factor_rest(old(self).toks(), old(self).pos(), left@) == (final(self).pos(), expr_result(r)),
        decreases old(self).tokens.len() - old(self).current, 8int,
    {
        let ghost c = self.pos();
        let ops = vec![TokenType::Slash, TokenType::Star];
        assert(ops@.len() == 2 && ops@[0] == TokenType::Slash && ops@[1] == TokenType::Star);
        proof {
            lemma_one_of_two(ops@, kind(self.toks(), c));
        }
        let operator = match self.match_one_of_and_consume(ops) {
            None => {
                proof {
                    lemma_factor_rest_stop(self.toks(), c, left@);
                }
                return Ok(left);
            },
            Some(op) => op,
        };
        let right = match self.parse_unary_expression() {
            Err(e) => {
                proof {
                    lemma_factor_rest_fail(self.toks(), c, left@, self.pos(), e@);
                }
                return Err(e);
            },
            Ok(e) => e,
        };
        proof {
            lemma_factor_rest_step(self.toks(), c, left@, right@, self.pos());
        }
        self.parse_factor_rest(Expr::Binary(Box::new(left), operator, Box::new(right)))
    }

    /// A prefix operator that is the last token has no operand: that is
    /// the end-of-input error.
    #[verifier::spinoff_prover]
    fn parse_unary_expression(&mut self) -> (r: Result<Expr, ParseErr>)
        requires
            old(self).wf(),
        ensures
            expr_frame(*old(self), *final(self)),
            r is Ok ==> old(self).current < final(self).current,
            unary(old(self).toks(), old(self).pos()) == (final(self).pos(), expr_result(r)),
        decreases old(self).tokens.len() - old(self).current, 7int,
    {
        let token = self.current_token();
        if (token.token_type == TokenType::Bang || token.token_type == TokenType::Minus) && self.is_at_end() {
            return Err(self.end_of_input_error());
        }
        let ops = vec![TokenType::Bang, TokenType::Minus];
        assert(ops@.len() == 2 && ops@[0] == TokenType::Bang && ops@[1] == TokenType::Minus);
        proof {
            lemma_one_of_two(ops@, kind(self.toks(), self.pos()));
        }
        if let Some(operator) = self.match_one_of_and_consume(ops) {
            let right = match self.parse_unary_expression() {
                Err(e) => return Err(e),
                Ok(e) => e,
            };
            Ok(Expr::Unary(operator, Box::new(right)))
        } else {
            self.parse_call_expression()
        }
    }

    #[verifier::spinoff_prover]
    fn parse_call_expression(&mut self) -> (r: Result<Expr, ParseErr>)
        requires
            old(self).wf(),
        ensures
            expr_frame(*old(self), *final(self)),
            r is Ok ==> old(self).current < final(self).current,
            call(old(self).toks(), old(self).pos()) == (final(self).pos(), expr_result(r)),
        decreases old(self).tokens.len() - old(self).current, 6int,
    {
        let expr = match self.parse_primary_expression() {
            Err(e) => return Err(e),
            Ok(e) => e,
        };
        self.parse_call_rest(expr)
    }

    /// The calls `(...)` that follow `callee`.
    #[verifier::spinoff_prover]
    fn parse_call_rest(&mut self, callee: Expr) -> (r: Result<Expr, ParseErr>)
        requires
            old(self).wf(),
        ensures
            expr_frame(*old(self), *final(self)),
            call_rest(old(self).toks(), old(self).pos(), callee@) == (final(self).pos(), expr_result(r)),
        decreases old(self).tokens.len() - old(self).current, 24int,
    {
        let ghost c = self.pos();
        let ghost before = callee@;
        if self.match_and_consume(TokenType::LeftParen).is_none() {
            proof {
                lemma_call_rest_stop(self.toks(), c, before);
            }
            return Ok(callee);
        }
        let called = match self.finish_call(callee) {
            Err(e) => {
                proof {
                    lemma_call_rest_fail(self.toks(), c, before, self.pos(), e@);
                }
                return Err(e);
            },
            Ok(e) => e,
        };
        proof {
            lemma_call_rest_step(self.toks(), c, before, called@, self.pos());
        }
        self.parse_call_rest(called)
    }

    #[verifier::spinoff_prover]
    #[verifier::rlimit(40)]
    fn finish_call(&mut self, callee: Expr) -> (r: Result<Expr, ParseErr>)
        requires
            old(self).wf(),
        ensures
            expr_frame(*old(self), *final(self)),
            r is Ok ==> old(self).current < final(self).current || kind(old(self).toks(), old(self).pos())
                == TokenType::RightParen,
            finish_call(old(self).toks(), old(self).pos(), callee@) == (final(self).pos(), expr_result(r)),
        decreases old(self).tokens.len() - old(self).current, 23int,
    {
        let arguments = if self.current_token().token_type != TokenType::RightParen {
            match self.parse_arguments() {
                Err(e) => return Err(e),
                Ok(a) => a,
            }
        } else {
            let none: Vec<Expr> = Vec::new();
            assert(exprs_view(none@) =~= Seq::<ExprView>::empty());
            none
        };
        proof {
            lemma_exprs_view(arguments@);
        }
        if arguments.len() > 255 {
            return Err(ParseErr::new(&self.current_token(), string_of("Can't have more than 255 arguments")));
        }
        let paren = match self.match_and_consume_or_err(TokenType::RightParen, string_of("Expected ')' after arguments")) {
            Err(e) => return Err(e),
            Ok(p) => p,
        };
        Ok(Expr::Call(Box::new(callee), paren, arguments))
    }

    /// The arguments of a call, separated by `,`.
    #[verifier::spinoff_prover]
    fn parse_arguments(&mut self) -> (r: Result<Vec<Expr>, ParseErr>)
        requires
            old(self).wf(),
        ensures
            expr_frame(*old(self), *final(self)),
            r is Ok ==> old(self).current < final(self).current,
            argument_list(old(self).toks(), old(self).pos(), Seq::empty()) == (final(self).pos(), match r {
                Ok(args) => Ok(exprs_view(args@)),
                Err(e) => Err(e@),
            }),
        decreases old(self).tokens.len() - old(self).current, 22int,
    {
        let mut arguments: Vec<Expr> = Vec::new();
        assert(exprs_view(arguments@) =~= Seq::<ExprView>::empty());
        loop
            invariant_except_break
                expr_frame(*old(self), *self),
                argument_list(old(self).toks(), old(self).pos(), Seq::empty()) == argument_list(
                    self.toks(),
                    self.pos(),
                    exprs_view(arguments@),
                ),
            ensures
                expr_frame(*old(self), *self),
                old(self).current < self.current,
                argument_list(old(self).toks(), old(self).pos(), Seq::empty()) == (self.pos(), Ok::<
                    Seq<ExprView>,
                    ParseErrView,
                >(exprs_view(arguments@))),
            decreases self.tokens.len() - self.current,
        {
            let ghost c = self.pos();
            let ghost before = exprs_view(arguments@);
            let argument = match self.parse_expression() {
                Err(e) => {
                    proof {
                        lemma_argument_list_fail(self.toks(), c, before, self.pos(), e@);
                    }
                    return Err(e);
                },
                Ok(a) => a,
            };
            proof {
                lemma_exprs_view_push(arguments@, argument);
            }
            let ghost a = argument@;
            arguments.push(argument);
            let ghost q = self.pos();
            if self.match_and_consume(TokenType::Comma).is_none() {
                proof {
                    lemma_argument_list_stop(self.toks(), c, before, a, q);
                }
                break;
            }
            proof {
                lemma_argument_list_step(self.toks(), c, before, a, q);
            }
        }
        Ok(arguments)
    }

    #[verifier::spinoff_prover]
    #[verifier::rlimit(40)]
    fn parse_primary_expression(&mut self) -> (r: Result<Expr, ParseErr>)
        requires
            old(self).wf(),
        ensures
            expr_frame(*old(self), *final(self)),
            r is Ok ==> old(self).current < final(self).current,
            primary(old(self).toks(), old(self).pos()) == (final(self).pos(), expr_result(r)),
        decreases old(self).tokens.len() - old(self).current, 5int,
    {
        let token = match self.consume() {
            Err(e) => return Err(e),
            Ok(t) => t,
        };
        let tt = token.token_type;
        if tt == TokenType::False {
            Ok(Expr::Literal(Literal::False))
        } else if tt == TokenType::True {
            Ok(Expr::Literal(Literal::True))
        } else if tt == TokenType::Nil {
            Ok(Expr::Literal(Literal::Nil))
        } else if tt == TokenType::Num || tt == TokenType::Str {
            Ok(Expr::Literal(token.literal))
        } else if tt == TokenType::Identifier {
            Ok(Expr::Variable(self.prev_token()))
        } else if tt == TokenType::LeftParen {
            let expr = match self.parse_expression() {
                Err(e) => return Err(e),
                Ok(e) => e,
            };
            if self.match_and_consume(TokenType::RightParen).is_none() {
                return Err(ParseErr::new(&self.current_token(), string_of("Expected ) after expression")));
            }
            Ok(Expr::Grouping(Box::new(expr)))
        } else {
            let current = self.current_token();
            self.create_parse_expr_err(&current, string_of("Expected expression."))
        }
    }

    fn create_parse_stmt_err(&self, message: String) -> (r: Result<Stmt, ParseErr>)
        requires
            self.wf(),
        ensures
            r matches Err(e) && e@ == perr(self.toks()[self.pos()], message@),
    {
        Err(ParseErr::new(&self.current_token(), message))
    }

    /// After an error: skips tokens until a statement seems to begin (the
    /// token before is a `;`, or the current one begins a declaration) or
    /// the last token is reached.
    #[verifier::spinoff_prover]
    fn synchronize(&mut self)
        requires
            old(self).wf(),
        ensures
            expr_frame(*old(self), *final(self)),
            final(self).pos() == synchronize(old(self).toks(), old(self).pos()),
            !at_end(old(self).toks(), old(self).pos()) ==> old(self).current < final(self).current,
    {
        let _ = self.consume();
        loop
            invariant_except_break
                synchronize(old(self).toks(), old(self).pos()) == synchronize_rest(self.toks(), self.pos()),
            invariant
                expr_frame(*old(self), *self),
                self.current >= 1 || at_end(self.toks(), self.pos()),
                !at_end(old(self).toks(), old(self).pos()) ==> old(self).current < self.current,
            ensures
                expr_frame(*old(self), *self),
                synchronize(old(self).toks(), old(self).pos()) == self.pos(),
                !at_end(old(self).toks(), old(self).pos()) ==> old(self).current < self.current,
            decreases self.tokens.len() - self.current,
        {
            proof {
                lemma_synchronize_rest(self.toks(), self.pos());
            }
            if self.is_at_end() {
                break;
            }
            if self.prev_token().token_type == TokenType::Semicolon {
                break;
            }
            let next = self.peek().token_type;
            if next == TokenType::Class || next == TokenType::Fun || next == TokenType::Var || next == TokenType::For
                || next == TokenType::If || next == TokenType::While || next == TokenType::Print || next
                == TokenType::Return {
                let _ = self.consume();
                break;
            }
            let _ = self.consume();
        }
    }

    /// `varDecl → IDENTIFIER ( "=" expression )? ";"`, after `var`.
    #[verifier::spinoff_prover]
    #[verifier::rlimit(40)]
    fn parse_var_declaration(&mut self) -> (r: Result<Stmt, ParseErr>)
        requires
            old(self).wf(),
        ensures
            expr_frame(*old(self), *final(self)),
            r is Ok ==> old(self).current < final(self).current || at_end(old(self).toks(), old(self).pos()),
            var_declaration(old(self).toks(), old(self).pos()) == (final(self).pos(), stmt_result(r)),
    {
        let name = match self.match_and_consume(TokenType::Identifier) {
            Some(name) => name,
            None => return self.create_parse_stmt_err(string_of("Expected variable name.")),
        };
        let initializer = if self.match_and_consume(TokenType::Equal).is_some() {
            match self.parse_expression() {
                Err(e) => return Err(e),
                Ok(e) => Some(e),
            }
        } else {
            None
        };
        if self.match_and_consume(TokenType::Semicolon).is_none() {
            return self.create_parse_stmt_err(string_of("Expected ';' after variable declaration"));
        }
        Ok(Stmt::Var(name, initializer))
    }

    /// `printStmt → expression ";"`, after `print`.
    #[verifier::spinoff_prover]
    fn parse_print_statement(&mut self) -> (r: Result<Stmt, ParseErr>)
        requires
            old(self).wf(),
        ensures
            expr_frame(*old(self), *final(self)),
            r is Ok ==> old(self).current < final(self).current,
            print_statement(old(self).toks(), old(self).pos()) == (final(self).pos(), stmt_result(r)),
    {
        let value = match self.parse_expression() {
            Err(e) => return Err(e),
            Ok(v) => v,
        };
        if self.match_and_consume(TokenType::Semicolon).is_none() {
            return self.create_parse_stmt_err(string_of("Expect ';' after value."));
        }
        Ok(Stmt::Print(value))
    }

    /// `exprStmt → expression ";"`
    #[verifier::spinoff_prover]
    fn parse_expression_statement(&mut self) -> (r: Result<Stmt, ParseErr>)
        requires
            old(self).wf(),
        ensures
            expr_frame(*old(self), *final(self)),
            r is Ok ==> old(self).current < final(self).current,
            expression_statement(old(self).toks(), old(self).pos()) == (final(self).pos(), stmt_result(r)),
    {
        let expr = match self.parse_expression() {
            Err(e) => return Err(e),
            Ok(v) => v,
        };
        if self.match_and_consume(TokenType::Semicolon).is_none() {
            return self.create_parse_stmt_err(string_of("Expect ';' after value."));
        }
        Ok(Stmt::Expr(expr))
    }

    /// `statement → forStmt | ifStmt | printStmt | whileStmt | block | exprStmt`
    #[verifier::spinoff_prover]
    fn parse_statement(&mut self) -> (r: Result<Stmt, ParseErr>)
        requires
            old(self).wf(),
        ensures
            stmt_step(*old(self), *final(self), statement(old(self).toks(), old(self).pos()).1),
            final(self).pos() == statement(old(self).toks(), old(self).pos()).0,
            stmt_result(r) == statement(old(self).toks(), old(self).pos()).2,
            r is Ok ==> old(self).current < final(self).current,
        decreases old(self).tokens.len() - old(self).current, 1int,
    {
        proof {
            lemma_no_errors(errs_view(self.errors@));
        }
        let token = match self.consume() {
            Err(e) => return Err(e),
            Ok(t) => t,
        };
        let tt = token.token_type;
        if tt == TokenType::For {
            self.parse_for_statement()
        } else if tt == TokenType::If {
            self.parse_if_statement()
        } else if tt == TokenType::Print {
            self.parse_print_statement()
        } else if tt == TokenType::While {
            self.parse_while_statement()
        } else if tt == TokenType::LeftBrace {
            match self.parse_statements_in_block() {
                Err(e) => Err(e),
                Ok(statements) => Ok(Stmt::Block(statements)),
            }
        } else {
            self.unconsume();
            self.parse_expression_statement()
        }
    }

    /// `forStmt → "(" ( varDecl | exprStmt | ";" ) ...`, after `for`.
    /// The token that begins an expression initializer is consumed before
    /// the initializer is parsed.
    #[verifier::spinoff_prover]
    fn parse_for_statement(&mut self) -> (r: Result<Stmt, ParseErr>)
        requires
            old(self).wf(),
        ensures
            stmt_step(*old(self), *final(self), for_statement(old(self).toks(), old(self).pos()).1),
            final(self).pos() == for_statement(old(self).toks(), old(self).pos()).0,
            stmt_result(r) == for_statement(old(self).toks(), old(self).pos()).2,
        decreases old(self).tokens.len() - old(self).current, 2int,
    {
        proof {
            lemma_no_errors(errs_view(self.errors@));
        }
        match self.match_and_consume_or_err(TokenType::LeftParen, string_of("Expect '(' after for")) {
            Err(e) => return Err(e),
            Ok(_) => {},
        }
        let init_token = match self.consume() {
            Err(e) => return Err(e),
            Ok(t) => t,
        };
        let initializer = if init_token.token_type == TokenType::Semicolon {
            None
        } else if init_token.token_type == TokenType::Var {
            match self.parse_var_declaration() {
                Err(e) => return Err(e),
                Ok(s) => Some(s),
            }
        } else {
            match self.parse_expression_statement() {
                Err(e) => return Err(e),
                Ok(s) => Some(s),
            }
        };
        self.parse_for_clauses(initializer)
    }

    /// The condition of a `for` loop after `initializer`, then the rest.
    #[verifier::spinoff_prover]
    fn parse_for_clauses(&mut self, initializer: Option<Stmt>) -> (r: Result<Stmt, ParseErr>)
        requires
            old(self).wf(),
        ensures
            stmt_step(*old(self), *final(self), for_clauses(old(self).toks(), old(self).pos(), opt_stmt_view(initializer)).1),
            final(self).pos() == for_clauses(old(self).toks(), old(self).pos(), opt_stmt_view(initializer)).0,
            stmt_result(r) == for_clauses(old(self).toks(), old(self).pos(), opt_stmt_view(initializer)).2,
        decreases old(self).tokens.len() - old(self).current, 4int,
    {
        proof {
            lemma_no_errors(errs_view(self.errors@));
        }
        let condition = if self.current_token().token_type != TokenType::Semicolon {
            match self.parse_expression() {
                Err(e) => return Err(e),
                Ok(e) => e,
            }
        } else {
            Expr::Literal(Literal::True)
        };
        match self.match_and_consume_or_err(TokenType::Semicolon, string_of("Expected ';' after loop condition")) {
            Err(e) => return Err(e),
            Ok(_) => {},
        }
        self.parse_for_increment(initializer, condition)
    }

    /// The increment of a `for` loop on `condition` after `initializer`,
    /// then its body.
    #[verifier::spinoff_prover]
    fn parse_for_increment(&mut self, initializer: Option<Stmt>, condition: Expr) -> (r: Result<Stmt, ParseErr>)
        requires
            old(self).wf(),
        ensures
            stmt_step(
                *old(self),
                *final(self),
                for_increment(old(self).toks(), old(self).pos(), opt_stmt_view(initializer), condition@).1,
            ),
            final(self).pos() == for_increment(old(self).toks(), old(self).pos(), opt_stmt_view(initializer), condition@).0,
            stmt_result(r) == for_increment(old(self).toks(), old(self).pos(), opt_stmt_view(initializer), condition@).2,
        decreases old(self).tokens.len() - old(self).current, 3int,
    {
        proof {
            lemma_no_errors(errs_view(self.errors@));
        }
        let increment = if self.current_token().token_type != TokenType::RightParen {
            match self.parse_expression() {
                Err(e) => return Err(e),
                Ok(e) => Some(e),
            }
        } else {
            None
        };
        match self.match_and_consume_or_err(TokenType::RightParen, string_of("Expected ')' after 'for' clause")) {
            Err(e) => return Err(e),
            Ok(_) => {},
        }
        self.parse_for_body(initializer, condition, increment)
    }

    /// The body of a `for` loop, and the `while` loop it becomes.
    #[verifier::spinoff_prover]
    fn parse_for_body(&mut self, initializer: Option<Stmt>, condition: Expr, increment: Option<Expr>) -> (r: Result<Stmt, ParseErr>)
        requires
            old(self).wf(),
        ensures
            stmt_step(
                *old(self),
                *final(self),
                for_body(old(self).toks(), old(self).pos(), opt_stmt_view(initializer), condition@, opt_expr_view(increment)).1,
            ),
            final(self).pos() == for_body(
                old(self).toks(),
                old(self).pos(),
                opt_stmt_view(initializer),
                condition@,
                opt_expr_view(increment),
            ).0,
            stmt_result(r) == for_body(
                old(self).toks(),
                old(self).pos(),
                opt_stmt_view(initializer),
                condition@,
                opt_expr_view(increment),
            ).2,
        decreases old(self).tokens.len() - old(self).current, 2int,
    {
        let body = match self.parse_statement() {
            Err(e) => return Err(e),
            Ok(s) => s,
        };
        Ok(desugar_for(initializer, condition, increment, body))
    }

    /// `ifStmt → "(" expression ")" statement ( "else" statement )?`, after `if`.
    #[verifier::spinoff_prover]
    fn parse_if_statement(&mut self) -> (r: Result<Stmt, ParseErr>)
        requires
            old(self).wf(),
        ensures
            stmt_step(*old(self), *final(self), if_statement(old(self).toks(), old(self).pos()).1),
            final(self).pos() == if_statement(old(self).toks(), old(self).pos()).0,
            stmt_result(r) == if_statement(old(self).toks(), old(self).pos()).2,
        decreases old(self).tokens.len() - old(self).current, 3int,
    {
        proof {
            lemma_no_errors(errs_view(self.errors@));
        }
        if self.match_and_consume(TokenType::LeftParen).is_none() {
            return self.create_parse_stmt_err(string_of("Expected '(' after 'if'"));
        }
        let condition = match self.parse_expression() {
            Err(e) => return Err(e),
            Ok(e) => e,
        };
        if self.match_and_consume(TokenType::RightParen).is_none() {
            return self.create_parse_stmt_err(string_of("Expected '(' after 'if'"));
        }
        self.parse_if_branches(condition)
    }

    /// The branches of an `if` on `condition`.
    #[verifier::spinoff_prover]
    #[verifier::rlimit(100)]
    fn parse_if_branches(&mut self, condition: Expr) -> (r: Result<Stmt, ParseErr>)
        requires
            old(self).wf(),
        ensures
            stmt_step(*old(self), *final(self), if_branches(old(self).toks(), old(self).pos(), condition@).1),
            final(self).pos() == if_branches(old(self).toks(), old(self).pos(), condition@).0,
            stmt_result(r) == if_branches(old(self).toks(), old(self).pos(), condition@).2,
        decreases old(self).tokens.len() - old(self).current, 2int,
    {
        let ghost e1 = statement(self.toks(), self.pos()).1;
        let then_branch = match self.parse_statement() {
            Ok(stmt) => Box::new(stmt),
            Err(err) => return Err(err),
        };
        let else_branch = if self.match_and_consume(TokenType::Else).is_some() {
            let ghost e2 = statement(self.toks(), self.pos()).1;
            proof {
                lemma_errors_assoc(errs_view(old(self).errors@), e1, e2);
            }
            match self.parse_statement() {
                Err(e) => return Err(e),
                Ok(s) => Some(Box::new(s)),
            }
        } else {
            None
        };
        Ok(Stmt::If(condition, then_branch, else_branch))
    }

    /// `whileStmt → "(" expression ")" statement`, after `while`.
    #[verifier::spinoff_prover]
    fn parse_while_statement(&mut self) -> (r: Result<Stmt, ParseErr>)
        requires
            old(self).wf(),
        ensures
            stmt_step(*old(self), *final(self), while_statement(old(self).toks(), old(self).pos()).1),
            final(self).pos() == while_statement(old(self).toks(), old(self).pos()).0,
            stmt_result(r) == while_statement(old(self).toks(), old(self).pos()).2,
        decreases old(self).tokens.len() - old(self).current, 3int,
    {
        proof {
            lemma_no_errors(errs_view(self.errors@));
        }
        match self.match_and_consume_or_err(TokenType::LeftParen, string_of("Expected '(' after 'while'")) {
            Err(e) => return Err(e),
            Ok(_) => {},
        }
        let condition = match self.parse_expression() {
            Err(e) => return Err(e),
            Ok(e) => e,
        };
        match self.match_and_consume_or_err(TokenType::RightParen, string_of("Expected ')' after condition")) {
            Err(e) => return Err(e),
            Ok(_) => {},
        }
        self.parse_while_body(condition)
    }

    /// The body of a `while` loop on `condition`.
    #[verifier::spinoff_prover]
    fn parse_while_body(&mut self, condition: Expr) -> (r: Result<Stmt, ParseErr>)
        requires
            old(self).wf(),
        ensures
            stmt_step(*old(self), *final(self), while_body(old(self).toks(), old(self).pos(), condition@).1),
            final(self).pos() == while_body(old(self).toks(), old(self).pos(), condition@).0,
            stmt_result(r) == while_body(old(self).toks(), old(self).pos(), condition@).2,
        decreases old(self).tokens.len() - old(self).current, 2int,
    {
        let body = match self.parse_statement() {
            Err(e) => return Err(e),
            Ok(s) => s,
        };
        Ok(Stmt::While(Box::new(condition), Box::new(body)))
    }

    /// `declaration → "var" varDecl | statement`.  A declaration that
    /// fails is reported, and parsing synchronizes past it.
    #[verifier::spinoff_prover]
    fn parse_declaration(&mut self) -> (r: Result<Option<Stmt>, ParseErr>)
        requires
            old(self).wf(),
        ensures
            stmt_step(*old(self), *final(self), declaration(old(self).toks(), old(self).pos()).1),
            final(self).pos() == declaration(old(self).toks(), old(self).pos()).0,
            r matches Ok(s) && opt_stmt_view(s) == declaration(old(self).toks(), old(self).pos()).2,
            !at_end(old(self).toks(), old(self).pos()) ==> old(self).current < final(self).current,
        decreases old(self).tokens.len() - old(self).current, 3int,
    {
        proof {
            lemma_no_errors(errs_view(self.errors@));
        }
        let ghost errs = if kind(self.toks(), self.pos()) == TokenType::Var {
            Seq::<ParseErrView>::empty()
        } else {
            statement(self.toks(), self.pos()).1
        };
        let result = if self.match_and_consume(TokenType::Var).is_some() {
            self.parse_var_declaration()
        } else {
            self.parse_statement()
        };
        match result {
            Ok(stmt) => Ok(Some(stmt)),
            Err(err) => {
                let ghost before = errs_view(self.errors@);
                let ghost e = err@;
                self.errors.push(err);
                proof {
                    assert(errs_view(self.errors@) =~= before.push(e));
                    lemma_errors_push(errs_view(old(self).errors@), errs, e);
                }
                self.synchronize();
                Ok(None)
            },
        }
    }

    /// `block → declaration* "}"`, after `{`.
    #[verifier::spinoff_prover]
    fn parse_statements_in_block(&mut self) -> (r: Result<Vec<Stmt>, ParseErr>)
        requires
            old(self).wf(),
        ensures
            stmt_step(*old(self), *final(self), block(old(self).toks(), old(self).pos()).1),
            final(self).pos() == block(old(self).toks(), old(self).pos()).0,
            stmts_result(r) == block(old(self).toks(), old(self).pos()).2,
        decreases old(self).tokens.len() - old(self).current, 5int,
    {
        let mut statements: Vec<Stmt> = Vec::new();
        let ghost mut errs: Seq<ParseErrView> = Seq::empty();
        proof {
            lemma_no_errors(errs_view(self.errors@));
            assert(stmts_view(statements@) =~= Seq::<StmtView>::empty());
        }
        while !self.current_token_matches(TokenType::RightBrace) && !self.is_at_end()
            invariant
                stmt_step(*old(self), *self, errs),
                block(old(self).toks(), old(self).pos()) == block_rest(self.toks(), self.pos(), stmts_view(statements@), errs),
            decreases self.tokens.len() - self.current,
        {
            let ghost c = self.pos();
            let ghost so_far = stmts_view(statements@);
            match self.parse_declaration() {
                Err(e) => return Err(e),
                Ok(Some(s)) => {
                    proof {
                        lemma_stmts_view_push(statements@, s);
                    }
                    statements.push(s);
                },
                Ok(None) => {},
            }
            proof {
                lemma_block_rest_step(self.toks(), c, so_far, errs);
                lemma_errors_assoc(errs_view(old(self).errors@), errs, declaration(self.toks(), c).1);
                errs = errs + declaration(self.toks(), c).1;
            }
        }
        proof {
            lemma_block_rest_end(self.toks(), self.pos(), stmts_view(statements@), errs);
        }
        if self.match_and_consume(TokenType::RightBrace).is_none() {
            Err(ParseErr::new(&self.current_token(), string_of("Expected '}' after block.")))
        } else {
            Ok(statements)
        }
    }

    /// The declarations of the program, from the current token to the end.
    #[verifier::spinoff_prover]
    fn parse_program(&mut self) -> (r: Vec<Stmt>)
        requires
            old(self).wf(),
        ensures
            final(self).wf(),
            stmts_view(r@) == program_rest(old(self).toks(), old(self).pos(), Seq::empty(), Seq::empty()).0,
            errs_view(final(self).errors@) == errs_view(old(self).errors@) + program_rest(
                old(self).toks(),
                old(self).pos(),
                Seq::empty(),
                Seq::empty(),
            ).1,
    {
        let mut stmts: Vec<Stmt> = Vec::new();
        let ghost mut errs: Seq<ParseErrView> = Seq::empty();
        proof {
            lemma_no_errors(errs_view(self.errors@));
            assert(stmts_view(stmts@) =~= Seq::<StmtView>::empty());
        }
        while !self.is_at_end()
            invariant
                stmt_step(*old(self), *self, errs),
                program_rest(old(self).toks(), old(self).pos(), Seq::empty(), Seq::empty()) == program_rest(
                    self.toks(),
                    self.pos(),
                    stmts_view(stmts@),
                    errs,
                ),
            decreases self.tokens.len() - self.current,
        {
            let ghost c = self.pos();
            let ghost so_far = stmts_view(stmts@);
            match self.parse_declaration() {
                Err(err) => {
                    self.errors.push(err);
                },
                Ok(stmt) => {
                    if let Some(stmt) = stmt {
                        proof {
                            lemma_stmts_view_push(stmts@, stmt);
                        }
                        stmts.push(stmt);
                    }
                },
            }
            proof {
                lemma_program_rest_step(self.toks(), c, so_far, errs);
                lemma_errors_assoc(errs_view(old(self).errors@), errs, declaration(self.toks(), c).1);
                errs = errs + declaration(self.toks(), c).1;
            }
        }
        proof {
            lemma_program_rest_end(self.toks(), self.pos(), stmts_view(stmts@), errs);
        }
        stmts
    }

    /// Parses `tokens` (which end with `Eof`, after at least one other
    /// token): the statements of the program, and the errors reported on
    /// the way, in order.
    pub fn parse(tokens: Vec<Token>) -> (r: (Vec<Stmt>, Vec<ParseErr>))
        requires
            parsable(tokens_view(tokens@)),
        ensures
            (stmts_view(r.0@), errs_view(r.1@)) == program(tokens_view(tokens@)),
    {
        let mut parser = Parser::new(tokens);
        proof {
            parser.lemma_toks();
        }
        let stmts = parser.parse_program();
        proof {
            assert(errs_view(parser.errors@) =~= program(tokens_view(tokens@)).1);
        }
        (stmts, parser.errors)
    }
}

proof fn lemma_one_of_two(ops: Seq<TokenType>, k: TokenType)
    requires
        ops.len() == 2,
    ensures
        ops.contains(k) == (k == ops[0] || k == ops[1]),
{
    if k == ops[0] {
        assert(ops[0] == k);
    }
    if k == ops[1] {
        assert(ops[1] == k);
    }
}

proof fn lemma_one_of_four(ops: Seq<TokenType>, k: TokenType)
    requires
        ops.len() == 4,
    ensures
        ops.contains(k) == (k == ops[0] || k == ops[1] || k == ops[2] || k == ops[3]),
{
    if k == ops[0] {
        assert(ops[0] == k);
    }
    if k == ops[1] {
        assert(ops[1] == k);
    }
    if k == ops[2] {
        assert(ops[2] == k);
    }
    if k == ops[3] {
        assert(ops[3] == k);
    }
}


/// The `while` loop a `for` loop stands for (see [`for_loop`]).
fn desugar_for(initializer: Option<Stmt>, condition: Expr, increment: Option<Expr>, body: Stmt) -> (r: Stmt)
    ensures
        r@ == for_loop(opt_stmt_view(initializer), condition@, opt_expr_view(increment), body@),
{
    let ghost inc_view = opt_expr_view(increment);
    let ghost body_view = body@;
    let ghost looped = match inc_view {
        Some(i) => StmtView::Block(seq![body_view, StmtView::Expr(i)]),
        None => body_view,
    };
    let mut body = body;
    if let Some(increment) = increment {
        let inc = Stmt::Expr(increment);
        proof {
            lemma_stmts_view_pair(body, inc);
        }
        let pair = vec![body, inc];
        assert(pair@ == seq![body, inc]);
        body = Stmt::Block(pair);
    }
    assert(body@ == looped);
    body = Stmt::While(Box::new(condition), Box::new(body));
    if let Some(initializer) = initializer {
        proof {
            lemma_stmts_view_pair(initializer, body);
        }
        let pair = vec![initializer, body];
        assert(pair@ == seq![initializer, body]);
        body = Stmt::Block(pair);
    }
    body
}

proof fn lemma_no_errors(errs: Seq<ParseErrView>)
    ensures
        errs + Seq::<ParseErrView>::empty() == errs,
{
    assert(errs + Seq::<ParseErrView>::empty() =~= errs);
}

proof fn lemma_errors_assoc(a: Seq<ParseErrView>, b: Seq<ParseErrView>, c: Seq<ParseErrView>)
    ensures
        (a + b) + c == a + (b + c),
{
    assert((a + b) + c =~= a + (b + c));
}

proof fn lemma_errors_push(a: Seq<ParseErrView>, b: Seq<ParseErrView>, x: ParseErrView)
    ensures
        (a + b).push(x) == a + b.push(x),
{
    assert((a + b).push(x) =~= a + b.push(x));
}

proof fn lemma_stmts_view_pair(a: Stmt, b: Stmt)
    ensures
        stmts_view(seq![a, b]) == seq![a@, b@],
{
    lemma_stmts_view_push(seq![a], b);
    lemma_stmts_view_push(Seq::<Stmt>::empty(), a);
    assert(seq![a] =~= Seq::<Stmt>::empty().push(a));
    assert(seq![a, b] =~= seq![a].push(b));
    assert(stmts_view(Seq::<Stmt>::empty()) =~= Seq::<StmtView>::empty());
}

} // verus!
