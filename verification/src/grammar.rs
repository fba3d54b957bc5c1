//! What parsing a sequence of tokens gives: the statements of a program
//! and the errors reported on the way, as functions of the tokens.
//!
//! A position `p` is the index of the current token.  The parser looks
//! one token ahead: the token at `p` is the last one when the next is
//! `Eof`, and consuming the last token leaves the position where it is.
//! Each function gives the position it stops at with its result.
use vstd::prelude::*;

use crate::expressions::ExprView;
use crate::statements::StmtView;
use crate::tokens::{LiteralView, TokenType, TokenView};

verus! {

/// A parse error: the token it was found at, and what went wrong.
pub struct ParseErrView {
    pub token: TokenView,
    pub message: Seq<char>,
}

/// The error `message` at `token`.
pub open spec fn perr(token: TokenView, message: Seq<char>) -> ParseErrView {
    ParseErrView { token, message }
}

/// The kind of the token at `p`.
pub open spec fn kind(t: Seq<TokenView>, p: int) -> TokenType {
    t[p].token_type
}

/// Tokens a parser can run on: at least one token before the closing `Eof`.
pub open spec fn parsable(t: Seq<TokenView>) -> bool {
    t.len() >= 2 && t.last().token_type == TokenType::Eof
}

/// The token at `p` is the last one: the next is `Eof` (or there is none).
pub open spec fn at_end(t: Seq<TokenView>, p: int) -> bool {
    p + 2 >= t.len() || t[p + 1].token_type == TokenType::Eof
}

/// The position after consuming the token at `p`.
pub open spec fn advance(t: Seq<TokenView>, p: int) -> int {
    if at_end(t, p) { p } else { p + 1 }
}

/// `p`, kept between `floor` and the end of `t`.  Parsing never moves
/// back and never leaves the tokens, so this gives `p` itself wherever
/// it is used; it lets termination be seen at a glance.
pub open spec fn forward(t: Seq<TokenView>, p: int, floor: int) -> int {
    if p < floor { floor } else if p > t.len() { t.len() as int } else { p }
}

/// The error for consuming the last token.
pub open spec fn end_of_input(token: TokenView) -> ParseErrView {
    perr(token, "Unexpected end of input at token '"@ + token.lexeme + "'"@)
}

/// `expression → assignment`
pub open spec fn expression(t: Seq<TokenView>, p: int) -> (int, Result<ExprView, ParseErrView>)
    decreases t.len() - p, 21int when 0 <= p < t.len()
{
    assignment(t, p)
}

/// `assignment → or ( "=" assignment )?`, where the target must be a variable.
pub open spec fn assignment(t: Seq<TokenView>, p: int) -> (int, Result<ExprView, ParseErrView>)
    decreases t.len() - p, 20int when 0 <= p < t.len()
{
    let (p1, r) = or_expr(t, p);
    match r {
        Err(e) => (p1, Err(e)),
        Ok(target) => {
            let q = forward(t, p1, p + 1);
            if kind(t, q) == TokenType::Equal {
                let q1 = advance(t, q);
                let equals = t[q1 - 1];
                let (p2, rv) = assignment(t, q1);
                match rv {
                    Err(e) => (p2, Err(e)),
                    Ok(value) => match target {
                        ExprView::Variable(name) => (p2, Ok(ExprView::Assign(name, Box::new(value)))),
                        _ => (p2, Err(perr(equals, "Invalid asignment target."@))),
                    },
                }
            } else {
                (q, Ok(target))
            }
        },
    }
}

/// `or → and ( "or" and )*`
pub open spec fn or_expr(t: Seq<TokenView>, p: int) -> (int, Result<ExprView, ParseErrView>)
    decreases t.len() - p, 19int when 0 <= p < t.len()
{
    let (p1, r) = and_expr(t, p);
    match r {
        Err(e) => (p1, Err(e)),
        Ok(left) => or_rest(t, forward(t, p1, p + 1), left),
    }
}

/// The `( "or" and )*` after `left`.
pub open spec fn or_rest(t: Seq<TokenView>, p: int, left: ExprView) -> (int, Result<ExprView, ParseErrView>)
    decreases t.len() - p, 18int when 0 <= p < t.len()
{
    if kind(t, p) == TokenType::Or {
        let q = advance(t, p);
        let (p1, r) = and_expr(t, q);
        match r {
            Err(e) => (p1, Err(e)),
            Ok(right) => or_rest(t, forward(t, p1, p + 1), ExprView::Logical(Box::new(left), t[q - 1], Box::new(right))),
        }
    } else {
        (p, Ok(left))
    }
}

/// `and → equality ( "and" equality )*`
pub open spec fn and_expr(t: Seq<TokenView>, p: int) -> (int, Result<ExprView, ParseErrView>)
    decreases t.len() - p, 17int when 0 <= p < t.len()
{
    let (p1, r) = equality(t, p);
    match r {
        Err(e) => (p1, Err(e)),
        Ok(left) => and_rest(t, forward(t, p1, p + 1), left),
    }
}

/// The `( "and" equality )*` after `left`.
pub open spec fn and_rest(t: Seq<TokenView>, p: int, left: ExprView) -> (int, Result<ExprView, ParseErrView>)
    decreases t.len() - p, 16int when 0 <= p < t.len()
{
    if kind(t, p) == TokenType::And {
        let q = advance(t, p);
        let (p1, r) = equality(t, q);
        match r {
            Err(e) => (p1, Err(e)),
            Ok(right) => and_rest(t, forward(t, p1, p + 1), ExprView::Logical(Box::new(left), t[q - 1], Box::new(right))),
        }
    } else {
        (p, Ok(left))
    }
}

/// The operators of equality expressions.
pub open spec fn is_equality_op(k: TokenType) -> bool {
    k == TokenType::BangEqual || k == TokenType::EqualEqual
}

/// The operators of comparisons.
pub open spec fn is_comparison_op(k: TokenType) -> bool {
    k == TokenType::Greater || k == TokenType::GreaterEqual || k == TokenType::Less || k == TokenType::LessEqual
}

/// The operators of terms.
pub open spec fn is_term_op(k: TokenType) -> bool {
    k == TokenType::Minus || k == TokenType::Plus
}

/// The operators of factors.
pub open spec fn is_factor_op(k: TokenType) -> bool {
    k == TokenType::Slash || k == TokenType::Star
}

/// The prefix operators.
pub open spec fn is_unary_op(k: TokenType) -> bool {
    k == TokenType::Bang || k == TokenType::Minus
}

/// `equality → comparison ( ( "!=" | "==" ) comparison )*`
pub open spec fn equality(t: Seq<TokenView>, p: int) -> (int, Result<ExprView, ParseErrView>)
    decreases t.len() - p, 15int when 0 <= p < t.len()
{
    let (p1, r) = comparison(t, p);
    match r {
        Err(e) => (p1, Err(e)),
        Ok(left) => equality_rest(t, forward(t, p1, p + 1), left),
    }
}

/// The `( ( "!=" | "==" ) comparison )*` after `left`.
pub open spec fn equality_rest(t: Seq<TokenView>, p: int, left: ExprView) -> (int, Result<ExprView, ParseErrView>)
    decreases t.len() - p, 14int when 0 <= p < t.len()
{
    if is_equality_op(kind(t, p)) {
        let (p1, r) = comparison(t, advance(t, p));
        match r {
            Err(e) => (p1, Err(e)),
            Ok(right) => equality_rest(t, forward(t, p1, p + 1), ExprView::Binary(Box::new(left), t[p], Box::new(right))),
        }
    } else {
        (p, Ok(left))
    }
}

/// `comparison → term ( ( ">" | ">=" | "<" | "<=" ) term )*`
pub open spec fn comparison(t: Seq<TokenView>, p: int) -> (int, Result<ExprView, ParseErrView>)
    decreases t.len() - p, 13int when 0 <= p < t.len()
{
    let (p1, r) = term(t, p);
    match r {
        Err(e) => (p1, Err(e)),
        Ok(left) => comparison_rest(t, forward(t, p1, p + 1), left),
    }
}

/// The `( ( ">" | ">=" | "<" | "<=" ) term )*` after `left`.
pub open spec fn comparison_rest(t: Seq<TokenView>, p: int, left: ExprView) -> (int, Result<ExprView, ParseErrView>)
    decreases t.len() - p, 12int when 0 <= p < t.len()
{
    if is_comparison_op(kind(t, p)) {
        let (p1, r) = term(t, advance(t, p));
        match r {
            Err(e) => (p1, Err(e)),
            Ok(right) => comparison_rest(t, forward(t, p1, p + 1), ExprView::Binary(Box::new(left), t[p], Box::new(right))),
        }
    } else {
        (p, Ok(left))
    }
}

/// `term → factor ( ( "-" | "+" ) factor )*`
pub open spec fn term(t: Seq<TokenView>, p: int) -> (int, Result<ExprView, ParseErrView>)
    decreases t.len() - p, 11int when 0 <= p < t.len()
{
    let (p1, r) = factor(t, p);
    match r {
        Err(e) => (p1, Err(e)),
        Ok(left) => term_rest(t, forward(t, p1, p + 1), left),
    }
}

/// The `( ( "-" | "+" ) factor )*` after `left`.
pub open spec fn term_rest(t: Seq<TokenView>, p: int, left: ExprView) -> (int, Result<ExprView, ParseErrView>)
    decreases t.len() - p, 10int when 0 <= p < t.len()
{
    if is_term_op(kind(t, p)) {
        let (p1, r) = factor(t, advance(t, p));
        match r {
            Err(e) => (p1, Err(e)),
            Ok(right) => term_rest(t, forward(t, p1, p + 1), ExprView::Binary(Box::new(left), t[p], Box::new(right))),
        }
    } else {
        (p, Ok(left))
    }
}

/// `factor → unary ( ( "/" | "*" ) unary )*`
pub open spec fn factor(t: Seq<TokenView>, p: int) -> (int, Result<ExprView, ParseErrView>)
    decreases t.len() - p, 9int when 0 <= p < t.len()
{
    let (p1, r) = unary(t, p);
    match r {
        Err(e) => (p1, Err(e)),
        Ok(left) => factor_rest(t, forward(t, p1, p + 1), left),
    }
}

/// The `( ( "/" | "*" ) unary )*` after `left`.
pub open spec fn factor_rest(t: Seq<TokenView>, p: int, left: ExprView) -> (int, Result<ExprView, ParseErrView>)
    decreases t.len() - p, 8int when 0 <= p < t.len()
{
    if is_factor_op(kind(t, p)) {
        let (p1, r) = unary(t, advance(t, p));
        match r {
            Err(e) => (p1, Err(e)),
            Ok(right) => factor_rest(t, forward(t, p1, p + 1), ExprView::Binary(Box::new(left), t[p], Box::new(right))),
        }
    } else {
        (p, Ok(left))
    }
}

/// `unary → ( "!" | "-" ) unary | call`.  An operator that is the last
/// token has no operand: that is the end-of-input error.
pub open spec fn unary(t: Seq<TokenView>, p: int) -> (int, Result<ExprView, ParseErrView>)
    decreases t.len() - p, 7int when 0 <= p < t.len()
{
    if is_unary_op(kind(t, p)) {
        if at_end(t, p) {
            (p, Err(end_of_input(t[p])))
        } else {
            let (p1, r) = unary(t, p + 1);
            match r {
                Err(e) => (p1, Err(e)),
                Ok(right) => (p1, Ok(ExprView::Unary(t[p], Box::new(right)))),
            }
        }
    } else {
        call(t, p)
    }
}

/// `call → primary ( "(" arguments? ")" )*`
pub open spec fn call(t: Seq<TokenView>, p: int) -> (int, Result<ExprView, ParseErrView>)
    decreases t.len() - p, 6int when 0 <= p < t.len()
{
    let (p1, r) = primary(t, p);
    match r {
        Err(e) => (p1, Err(e)),
        Ok(callee) => call_rest(t, forward(t, p1, p + 1), callee),
    }
}

/// The calls `( "(" arguments? ")" )*` after `callee`.
pub open spec fn call_rest(t: Seq<TokenView>, p: int, callee: ExprView) -> (int, Result<ExprView, ParseErrView>)
    decreases t.len() - p, 24int when 0 <= p < t.len()
{
    if kind(t, p) == TokenType::LeftParen {
        let (p1, r) = finish_call(t, advance(t, p), callee);
        match r {
            Err(e) => (p1, Err(e)),
            Ok(c) => call_rest(t, forward(t, p1, p + 1), c),
        }
    } else {
        (p, Ok(callee))
    }
}

/// The arguments and closing parenthesis of a call of `callee`, after
/// its opening parenthesis.
pub open spec fn finish_call(t: Seq<TokenView>, p: int, callee: ExprView) -> (int, Result<ExprView, ParseErrView>)
    decreases t.len() - p, 23int when 0 <= p < t.len()
{
    let (p1, r) = if kind(t, p) != TokenType::RightParen {
        argument_list(t, p, Seq::empty())
    } else {
        (p, Ok(Seq::empty()))
    };
    match r {
        Err(e) => (p1, Err(e)),
        Ok(args) => {
            let q = forward(t, p1, p);
            if args.len() > 255 {
                (q, Err(perr(t[q], "Can't have more than 255 arguments"@)))
            } else if kind(t, q) == TokenType::RightParen {
                (advance(t, q), Ok(ExprView::Call(Box::new(callee), t[q], args)))
            } else {
                (q, Err(perr(t[q], "Expected ')' after arguments"@)))
            }
        },
    }
}

/// `arguments → expression ( "," expression )*`, after the arguments `args`.
pub open spec fn argument_list(t: Seq<TokenView>, p: int, args: Seq<ExprView>) -> (int, Result<Seq<ExprView>, ParseErrView>)
    decreases t.len() - p, 22int when 0 <= p < t.len()
{
    let (p1, r) = expression(t, p);
    match r {
        Err(e) => (p1, Err(e)),
        Ok(a) => {
            let q = forward(t, p1, p + 1);
            if kind(t, q) == TokenType::Comma {
                argument_list(t, advance(t, q), args.push(a))
            } else {
                (q, Ok(args.push(a)))
            }
        },
    }
}

/// `primary → "false" | "true" | "nil" | NUMBER | STRING | IDENTIFIER | "(" expression ")"`
pub open spec fn primary(t: Seq<TokenView>, p: int) -> (int, Result<ExprView, ParseErrView>)
    decreases t.len() - p, 5int when 0 <= p < t.len()
{
    if at_end(t, p) {
        (p, Err(end_of_input(t[p])))
    } else {
        let k = kind(t, p);
        let p1 = p + 1;
        if k == TokenType::False {
            (p1, Ok(ExprView::Literal(LiteralView::False)))
        } else if k == TokenType::True {
            (p1, Ok(ExprView::Literal(LiteralView::True)))
        } else if k == TokenType::Nil {
            (p1, Ok(ExprView::Literal(LiteralView::Nil)))
        } else if k == TokenType::Num || k == TokenType::Str {
            (p1, Ok(ExprView::Literal(t[p].literal)))
        } else if k == TokenType::Identifier {
            (p1, Ok(ExprView::Variable(t[p])))
        } else if k == TokenType::LeftParen {
            let (p2, r) = expression(t, p1);
            match r {
                Err(e) => (p2, Err(e)),
                Ok(inner) => {
                    let q = forward(t, p2, p1);
                    if kind(t, q) == TokenType::RightParen {
                        (advance(t, q), Ok(ExprView::Grouping(Box::new(inner))))
                    } else {
                        (q, Err(perr(t[q], "Expected ) after expression"@)))
                    }
                },
            }
        } else {
            (p1, Err(perr(t[p1], "Expected expression."@)))
        }
    }
}

/// A statement parse that reports no errors of its own.
pub open spec fn quiet(r: (int, Result<StmtView, ParseErrView>)) -> (int, Seq<ParseErrView>, Result<StmtView, ParseErrView>) {
    (r.0, Seq::empty(), r.1)
}

/// `varDecl → IDENTIFIER ( "=" expression )? ";"`, after `var`.
pub open spec fn var_declaration(t: Seq<TokenView>, p: int) -> (int, Result<StmtView, ParseErrView>) {
    if kind(t, p) != TokenType::Identifier {
        (p, Err(perr(t[p], "Expected variable name."@)))
    } else {
        let name = t[p];
        let p1 = advance(t, p);
        if kind(t, p1) == TokenType::Equal {
            let q0 = advance(t, p1);
            let (q, r) = expression(t, q0);
            match r {
                Err(e) => (q, Err(e)),
                Ok(init) => var_end(t, forward(t, q, q0), name, Some(init)),
            }
        } else {
            var_end(t, p1, name, None)
        }
    }
}

/// The `;` that ends the declaration of `name`.
pub open spec fn var_end(t: Seq<TokenView>, p: int, name: TokenView, init: Option<ExprView>) -> (int, Result<StmtView, ParseErrView>) {
    if kind(t, p) == TokenType::Semicolon {
        (advance(t, p), Ok(StmtView::Var(name, init)))
    } else {
        (p, Err(perr(t[p], "Expected ';' after variable declaration"@)))
    }
}

/// `printStmt → expression ";"`, after `print`.
pub open spec fn print_statement(t: Seq<TokenView>, p: int) -> (int, Result<StmtView, ParseErrView>) {
    let (p1, r) = expression(t, p);
    match r {
        Err(e) => (p1, Err(e)),
        Ok(value) => {
            let q = forward(t, p1, p);
            if kind(t, q) == TokenType::Semicolon {
                (advance(t, q), Ok(StmtView::Print(value)))
            } else {
                (q, Err(perr(t[q], "Expect ';' after value."@)))
            }
        },
    }
}

/// `exprStmt → expression ";"`
pub open spec fn expression_statement(t: Seq<TokenView>, p: int) -> (int, Result<StmtView, ParseErrView>) {
    let (p1, r) = expression(t, p);
    match r {
        Err(e) => (p1, Err(e)),
        Ok(value) => {
            let q = forward(t, p1, p);
            if kind(t, q) == TokenType::Semicolon {
                (advance(t, q), Ok(StmtView::Expr(value)))
            } else {
                (q, Err(perr(t[q], "Expect ';' after value."@)))
            }
        },
    }
}

/// `statement → forStmt | ifStmt | printStmt | whileStmt | block | exprStmt`
pub open spec fn statement(t: Seq<TokenView>, p: int) -> (int, Seq<ParseErrView>, Result<StmtView, ParseErrView>)
    decreases t.len() - p, 1int when 0 <= p < t.len()
{
    if at_end(t, p) {
        (p, Seq::empty(), Err(end_of_input(t[p])))
    } else {
        let k = kind(t, p);
        if k == TokenType::For {
            for_statement(t, p + 1)
        } else if k == TokenType::If {
            if_statement(t, p + 1)
        } else if k == TokenType::Print {
            quiet(print_statement(t, p + 1))
        } else if k == TokenType::While {
            while_statement(t, p + 1)
        } else if k == TokenType::LeftBrace {
            let (q, errs, r) = block(t, p + 1);
            (q, errs, match r {
                Err(e) => Err(e),
                Ok(ss) => Ok(StmtView::Block(ss)),
            })
        } else {
            quiet(expression_statement(t, p))
        }
    }
}

/// `forStmt → "(" ( varDecl | exprStmt | ";" ) expression? ";" expression? ")" statement`,
/// after `for`.  An expression initializer is parsed from the token after
/// its first one.
pub open spec fn for_statement(t: Seq<TokenView>, p: int) -> (int, Seq<ParseErrView>, Result<StmtView, ParseErrView>)
    decreases t.len() - p, 3int when 0 <= p < t.len()
{
    if kind(t, p) != TokenType::LeftParen {
        (p, Seq::empty(), Err(perr(t[p], "Expect '(' after for"@)))
    } else {
        let q0 = advance(t, p);
        if at_end(t, q0) {
            (q0, Seq::empty(), Err(end_of_input(t[q0])))
        } else {
            let k = kind(t, q0);
            let q1 = q0 + 1;
            let (q2, ri) = if k == TokenType::Semicolon {
                (q1, Ok(None))
            } else {
                let (a, r) = if k == TokenType::Var { var_declaration(t, q1) } else { expression_statement(t, q1) };
                (a, match r {
                    Err(e) => Err(e),
                    Ok(s) => Ok(Some(s)),
                })
            };
            match ri {
                Err(e) => (q2, Seq::empty(), Err(e)),
                Ok(init) => for_clauses(t, forward(t, q2, q1), init),
            }
        }
    }
}

/// The condition of a `for` loop with initializer `init`, then the rest.
pub open spec fn for_clauses(t: Seq<TokenView>, p: int, init: Option<StmtView>) -> (int, Seq<ParseErrView>, Result<StmtView, ParseErrView>)
    decreases t.len() - p, 4int when 0 <= p < t.len()
{
    let (p1, rc) = if kind(t, p) != TokenType::Semicolon {
        expression(t, p)
    } else {
        (p, Ok(ExprView::Literal(LiteralView::True)))
    };
    match rc {
        Err(e) => (p1, Seq::empty(), Err(e)),
        Ok(cond) => {
            let q = forward(t, p1, p);
            if kind(t, q) != TokenType::Semicolon {
                (q, Seq::empty(), Err(perr(t[q], "Expected ';' after loop condition"@)))
            } else {
                for_increment(t, advance(t, q), init, cond)
            }
        },
    }
}

/// The increment of a `for` loop with initializer `init` and condition
/// `cond`, then its body.
pub open spec fn for_increment(t: Seq<TokenView>, p: int, init: Option<StmtView>, cond: ExprView) -> (int, Seq<ParseErrView>, Result<StmtView, ParseErrView>)
    decreases t.len() - p, 3int when 0 <= p < t.len()
{
    let (p2, ri) = if kind(t, p) != TokenType::RightParen {
        let (a, r) = expression(t, p);
        (a, match r {
            Err(e) => Err(e),
            Ok(e) => Ok(Some(e)),
        })
    } else {
        (p, Ok(None))
    };
    match ri {
        Err(e) => (p2, Seq::empty(), Err(e)),
        Ok(inc) => {
            let q2 = forward(t, p2, p);
            if kind(t, q2) != TokenType::RightParen {
                (q2, Seq::empty(), Err(perr(t[q2], "Expected ')' after 'for' clause"@)))
            } else {
                for_body(t, advance(t, q2), init, cond, inc)
            }
        },
    }
}

/// The body of a `for` loop with initializer `init`, condition `cond` and
/// increment `inc`.
pub open spec fn for_body(t: Seq<TokenView>, p: int, init: Option<StmtView>, cond: ExprView, inc: Option<ExprView>) -> (int, Seq<ParseErrView>, Result<StmtView, ParseErrView>)
    decreases t.len() - p, 2int when 0 <= p < t.len()
{
    let (p3, errs, rb) = statement(t, p);
    (p3, errs, match rb {
        Err(e) => Err(e),
        Ok(body) => Ok(for_loop(init, cond, inc, body)),
    })
}

/// The statement a `for` loop stands for: a `while` loop whose body runs
/// the increment after the body, after the initializer.
pub open spec fn for_loop(init: Option<StmtView>, cond: ExprView, inc: Option<ExprView>, body: StmtView) -> StmtView {
    let b = match inc {
        Some(i) => StmtView::Block(seq![body, StmtView::Expr(i)]),
        None => body,
    };
    let w = StmtView::While(cond, Box::new(b));
    match init {
        Some(s) => StmtView::Block(seq![s, w]),
        None => w,
    }
}

/// `ifStmt → "(" expression ")" statement ( "else" statement )?`, after `if`.
pub open spec fn if_statement(t: Seq<TokenView>, p: int) -> (int, Seq<ParseErrView>, Result<StmtView, ParseErrView>)
    decreases t.len() - p, 3int when 0 <= p < t.len()
{
    if kind(t, p) != TokenType::LeftParen {
        (p, Seq::empty(), Err(perr(t[p], "Expected '(' after 'if'"@)))
    } else {
        let q0 = advance(t, p);
        let (q1, rc) = expression(t, q0);
        match rc {
            Err(e) => (q1, Seq::empty(), Err(e)),
            Ok(cond) => {
                let q = forward(t, q1, q0);
                if kind(t, q) != TokenType::RightParen {
                    (q, Seq::empty(), Err(perr(t[q], "Expected '(' after 'if'"@)))
                } else {
                    if_branches(t, advance(t, q), cond)
                }
            },
        }
    }
}

/// The branches of an `if` with condition `cond`.
pub open spec fn if_branches(t: Seq<TokenView>, p: int, cond: ExprView) -> (int, Seq<ParseErrView>, Result<StmtView, ParseErrView>)
    decreases t.len() - p, 2int when 0 <= p < t.len()
{
    let (p2, e1, rt) = statement(t, p);
    match rt {
        Err(e) => (p2, e1, Err(e)),
        Ok(then_branch) => {
            let q3 = forward(t, p2, p);
            if kind(t, q3) == TokenType::Else {
                let (p3, e2, re) = statement(t, advance(t, q3));
                (p3, e1 + e2, match re {
                    Err(e) => Err(e),
                    Ok(else_branch) => Ok(StmtView::If(cond, Box::new(then_branch), Some(Box::new(else_branch)))),
                })
            } else {
                (q3, e1, Ok(StmtView::If(cond, Box::new(then_branch), None)))
            }
        },
    }
}

/// The parts of `if ( cond ) then ...` starting at `p`: the condition's
/// outcome, where the `)` after it stands, the then-branch's outcome and
/// where it ends (positions as [`forward`] keeps them).
pub open spec fn if_parts(t: Seq<TokenView>, p: int) -> (Result<ExprView, ParseErrView>, int, Seq<ParseErrView>, Result<StmtView, ParseErrView>, int) {
    let q0 = advance(t, p + 1);
    let (q1, rc) = expression(t, q0);
    let qc = forward(t, q1, q0);
    let q2 = advance(t, qc);
    let (p2, e1, rs) = statement(t, q2);
    (rc, qc, e1, rs, forward(t, p2, q2))
}

/// An `if` statement without `else` keeps its condition and its branch:
/// for tokens `if ( cond ) then` with no `else` after `then`, parsing a
/// statement from `if` gives `If(cond, then, None)`, where `cond` is what
/// parsing an expression gives after `(` and `then` what parsing a
/// statement gives after `)`.  (The positions where the parts end are
/// within the tokens, as parsing keeps them.)
#[verifier::spinoff_prover]
pub proof fn law_if_without_else(t: Seq<TokenView>, p: int)
    requires
        parsable(t),
        0 <= p,
        p + 2 < t.len(),
        kind(t, p) == TokenType::If,
        kind(t, p + 1) == TokenType::LeftParen,
        if_parts(t, p).0 is Ok,
        if_parts(t, p).1 < t.len(),
        kind(t, if_parts(t, p).1) == TokenType::RightParen,
        if_parts(t, p).3 is Ok,
        if_parts(t, p).4 < t.len(),
        kind(t, if_parts(t, p).4) != TokenType::Else,
    ensures
        statement(t, p) == (if_parts(t, p).4, if_parts(t, p).2, Ok::<StmtView, ParseErrView>(
            StmtView::If(if_parts(t, p).0->Ok_0, Box::new(if_parts(t, p).3->Ok_0), None))),
{
    assert(!at_end(t, p));
    assert(statement(t, p) == if_statement(t, p + 1));
    let q2 = advance(t, if_parts(t, p).1);
    assert(if_statement(t, p + 1) == if_branches(t, q2, if_parts(t, p).0->Ok_0));
}

/// An `if` statement with `else` keeps its condition and both branches:
/// for tokens `if ( cond ) then else other`, parsing a statement from
/// `if` gives `If(cond, then, Some(other))`, `other` being what parsing a
/// statement gives after `else`.
#[verifier::spinoff_prover]
pub proof fn law_if_with_else(t: Seq<TokenView>, p: int)
    requires
        parsable(t),
        0 <= p,
        p + 2 < t.len(),
        kind(t, p) == TokenType::If,
        kind(t, p + 1) == TokenType::LeftParen,
        if_parts(t, p).0 is Ok,
        if_parts(t, p).1 < t.len(),
        kind(t, if_parts(t, p).1) == TokenType::RightParen,
        if_parts(t, p).3 is Ok,
        if_parts(t, p).4 < t.len(),
        kind(t, if_parts(t, p).4) == TokenType::Else,
        statement(t, advance(t, if_parts(t, p).4)).2 is Ok,
    ensures
        ({
            let (p3, e2, re) = statement(t, advance(t, if_parts(t, p).4));
            statement(t, p) == (p3, if_parts(t, p).2 + e2, Ok::<StmtView, ParseErrView>(
                StmtView::If(if_parts(t, p).0->Ok_0, Box::new(if_parts(t, p).3->Ok_0), Some(Box::new(re->Ok_0)))))
        }),
{
    assert(!at_end(t, p));
    assert(statement(t, p) == if_statement(t, p + 1));
    let q2 = advance(t, if_parts(t, p).1);
    assert(if_statement(t, p + 1) == if_branches(t, q2, if_parts(t, p).0->Ok_0));
}

/// `whileStmt → "(" expression ")" statement`, after `while`.
pub open spec fn while_statement(t: Seq<TokenView>, p: int) -> (int, Seq<ParseErrView>, Result<StmtView, ParseErrView>)
    decreases t.len() - p, 3int when 0 <= p < t.len()
{
    if kind(t, p) != TokenType::LeftParen {
        (p, Seq::empty(), Err(perr(t[p], "Expected '(' after 'while'"@)))
    } else {
        let q0 = advance(t, p);
        let (q1, rc) = expression(t, q0);
        match rc {
            Err(e) => (q1, Seq::empty(), Err(e)),
            Ok(cond) => {
                let q = forward(t, q1, q0);
                if kind(t, q) != TokenType::RightParen {
                    (q, Seq::empty(), Err(perr(t[q], "Expected ')' after condition"@)))
                } else {
                    while_body(t, advance(t, q), cond)
                }
            },
        }
    }
}

/// The body of a `while` loop on `cond`.
pub open spec fn while_body(t: Seq<TokenView>, p: int, cond: ExprView) -> (int, Seq<ParseErrView>, Result<StmtView, ParseErrView>)
    decreases t.len() - p, 2int when 0 <= p < t.len()
{
    let (p2, errs, rb) = statement(t, p);
    (p2, errs, match rb {
        Err(e) => Err(e),
        Ok(body) => Ok(StmtView::While(cond, Box::new(body))),
    })
}

/// `block → declaration* "}"`, after `{`.
pub open spec fn block(t: Seq<TokenView>, p: int) -> (int, Seq<ParseErrView>, Result<Seq<StmtView>, ParseErrView>)
    decreases t.len() - p, 5int when 0 <= p < t.len()
{
    block_rest(t, p, Seq::empty(), Seq::empty())
}

/// The statements `stmts` with the one a declaration gave, if any.
pub open spec fn push_some(stmts: Seq<StmtView>, s: Option<StmtView>) -> Seq<StmtView> {
    match s {
        Some(s) => stmts.push(s),
        None => stmts,
    }
}

/// The declarations of a block after the statements `stmts`, with the
/// errors `errs` reported so far.
pub open spec fn block_rest(t: Seq<TokenView>, p: int, stmts: Seq<StmtView>, errs: Seq<ParseErrView>) -> (int, Seq<ParseErrView>, Result<Seq<StmtView>, ParseErrView>)
    decreases t.len() - p, 4int when 0 <= p < t.len()
{
    if !at_end(t, p) && kind(t, p) != TokenType::RightBrace {
        let (p1, e1, s) = declaration(t, p);
        block_rest(t, forward(t, p1, p + 1), push_some(stmts, s), errs + e1)
    } else if kind(t, p) == TokenType::RightBrace {
        (advance(t, p), errs, Ok(stmts))
    } else {
        (p, errs, Err(perr(t[p], "Expected '}' after block."@)))
    }
}

/// `declaration → "var" varDecl | statement`.  A declaration that fails
/// is reported, and parsing goes on after the point it synchronizes to.
pub open spec fn declaration(t: Seq<TokenView>, p: int) -> (int, Seq<ParseErrView>, Option<StmtView>)
    decreases t.len() - p, 3int when 0 <= p < t.len()
{
    let (p1, errs, r) = if kind(t, p) == TokenType::Var {
        quiet(var_declaration(t, advance(t, p)))
    } else {
        statement(t, p)
    };
    match r {
        Ok(s) => (p1, errs, Some(s)),
        Err(e) => (synchronize(t, forward(t, p1, p)), errs.push(e), None),
    }
}

/// The kinds of token that begin a declaration.
pub open spec fn begins_declaration(k: TokenType) -> bool {
    k == TokenType::Class || k == TokenType::Fun || k == TokenType::Var || k == TokenType::For || k
        == TokenType::If || k == TokenType::While || k == TokenType::Print || k == TokenType::Return
}

/// Where parsing goes on after an error at `p`: past the current token,
/// then on until the token before is a `;`, or the last token is
/// reached, or the next token begins a declaration (then at that token).
pub open spec fn synchronize(t: Seq<TokenView>, p: int) -> int {
    synchronize_rest(t, advance(t, p))
}

/// The scan of [`synchronize`] from `p`.
pub open spec fn synchronize_rest(t: Seq<TokenView>, p: int) -> int
    decreases t.len() - p when 0 <= p < t.len()
{
    if at_end(t, p) {
        p
    } else if kind(t, p - 1) == TokenType::Semicolon {
        p
    } else if begins_declaration(kind(t, p + 1)) {
        p + 1
    } else {
        synchronize_rest(t, p + 1)
    }
}

/// The declarations of a program from `p` on, after the statements
/// `stmts`, with the errors `errs` reported so far.
pub open spec fn program_rest(t: Seq<TokenView>, p: int, stmts: Seq<StmtView>, errs: Seq<ParseErrView>) -> (Seq<StmtView>, Seq<ParseErrView>)
    decreases t.len() - p when 0 <= p < t.len()
{
    if at_end(t, p) {
        (stmts, errs)
    } else {
        let (p1, e1, s) = declaration(t, p);
        program_rest(t, forward(t, p1, p + 1), push_some(stmts, s), errs + e1)
    }
}

/// The statements of a program and the errors reported while parsing it.
pub open spec fn program(t: Seq<TokenView>) -> (Seq<StmtView>, Seq<ParseErrView>) {
    program_rest(t, 0, Seq::empty(), Seq::empty())
}


/// One more operand of [`or_rest`]: after `left` and the operator at `c`,
/// the operand `right` ends at `p`.
pub proof fn lemma_or_rest_step(t: Seq<TokenView>, c: int, left: ExprView, right: ExprView, p: int)
    requires
        0 <= c < t.len(),
        kind(t, c) == TokenType::Or,
        and_expr(t, advance(t, c)) == (p, Ok::<ExprView, ParseErrView>(right)),
        c < p < t.len(),
    ensures
        or_rest(t, c, left) == or_rest(t, p, ExprView::Logical(Box::new(left), t[advance(t, c) - 1], Box::new(right))),
{
}

/// One more operand of [`and_rest`]: after `left` and the operator at `c`,
/// the operand `right` ends at `p`.
pub proof fn lemma_and_rest_step(t: Seq<TokenView>, c: int, left: ExprView, right: ExprView, p: int)
    requires
        0 <= c < t.len(),
        kind(t, c) == TokenType::And,
        equality(t, advance(t, c)) == (p, Ok::<ExprView, ParseErrView>(right)),
        c < p < t.len(),
    ensures
        and_rest(t, c, left) == and_rest(t, p, ExprView::Logical(Box::new(left), t[advance(t, c) - 1], Box::new(right))),
{
}

/// One more operand of [`equality_rest`]: after `left` and the operator at `c`,
/// the operand `right` ends at `p`.
pub proof fn lemma_equality_rest_step(t: Seq<TokenView>, c: int, left: ExprView, right: ExprView, p: int)
    requires
        0 <= c < t.len(),
        is_equality_op(kind(t, c)),
        comparison(t, advance(t, c)) == (p, Ok::<ExprView, ParseErrView>(right)),
        c < p < t.len(),
    ensures
        equality_rest(t, c, left) == equality_rest(t, p, ExprView::Binary(Box::new(left), t[c], Box::new(right))),
{
}

/// One more operand of [`comparison_rest`]: after `left` and the operator at `c`,
/// the operand `right` ends at `p`.
pub proof fn lemma_comparison_rest_step(t: Seq<TokenView>, c: int, left: ExprView, right: ExprView, p: int)
    requires
        0 <= c < t.len(),
        is_comparison_op(kind(t, c)),
        term(t, advance(t, c)) == (p, Ok::<ExprView, ParseErrView>(right)),
        c < p < t.len(),
    ensures
        comparison_rest(t, c, left) == comparison_rest(t, p, ExprView::Binary(Box::new(left), t[c], Box::new(right))),
{
}

/// One more operand of [`term_rest`]: after `left` and the operator at `c`,
/// the operand `right` ends at `p`.
pub proof fn lemma_term_rest_step(t: Seq<TokenView>, c: int, left: ExprView, right: ExprView, p: int)
    requires
        0 <= c < t.len(),
        is_term_op(kind(t, c)),
        factor(t, advance(t, c)) == (p, Ok::<ExprView, ParseErrView>(right)),
        c < p < t.len(),
    ensures
        term_rest(t, c, left) == term_rest(t, p, ExprView::Binary(Box::new(left), t[c], Box::new(right))),
{
}

/// One more operand of [`factor_rest`]: after `left` and the operator at `c`,
/// the operand `right` ends at `p`.
pub proof fn lemma_factor_rest_step(t: Seq<TokenView>, c: int, left: ExprView, right: ExprView, p: int)
    requires
        0 <= c < t.len(),
        is_factor_op(kind(t, c)),
        unary(t, advance(t, c)) == (p, Ok::<ExprView, ParseErrView>(right)),
        c < p < t.len(),
    ensures
        factor_rest(t, c, left) == factor_rest(t, p, ExprView::Binary(Box::new(left), t[c], Box::new(right))),
{
}

/// One more call of [`call_rest`]: after `callee` and the `(` at `c`, the
/// call `c2` ends at `p`.
pub proof fn lemma_call_rest_step(t: Seq<TokenView>, c: int, callee: ExprView, c2: ExprView, p: int)
    requires
        0 <= c < t.len(),
        kind(t, c) == TokenType::LeftParen,
        finish_call(t, advance(t, c), callee) == (p, Ok::<ExprView, ParseErrView>(c2)),
        c < p < t.len(),
    ensures
        call_rest(t, c, callee) == call_rest(t, p, c2),
{
    let q = advance(t, c);
    assert(0 <= q < t.len());
    assert(forward(t, p, c + 1) == p);
    let (p1, r) = finish_call(t, q, callee);
    assert(p1 == p && r == Ok::<ExprView, ParseErrView>(c2));
}

/// One more argument of [`argument_list`]: the argument `a` at `c` ends at
/// `q`, where a `,` follows.
pub proof fn lemma_argument_list_step(t: Seq<TokenView>, c: int, args: Seq<ExprView>, a: ExprView, q: int)
    requires
        0 <= c < t.len(),
        expression(t, c) == (q, Ok::<ExprView, ParseErrView>(a)),
        c < q < t.len(),
        kind(t, q) == TokenType::Comma,
    ensures
        argument_list(t, c, args) == argument_list(t, advance(t, q), args.push(a)),
{
}


/// [`or_rest`] stops at a token that does not continue it.
pub proof fn lemma_or_rest_stop(t: Seq<TokenView>, c: int, left: ExprView)
    requires
        0 <= c < t.len(),
        !(kind(t, c) == TokenType::Or),
    ensures
        or_rest(t, c, left) == (c, Ok::<ExprView, ParseErrView>(left)),
{
}

/// [`or_rest`] fails where its next operand fails.
pub proof fn lemma_or_rest_fail(t: Seq<TokenView>, c: int, left: ExprView, p: int, e: ParseErrView)
    requires
        0 <= c < t.len(),
        kind(t, c) == TokenType::Or,
        and_expr(t, advance(t, c)) == (p, Err::<ExprView, ParseErrView>(e)),
    ensures
        or_rest(t, c, left) == (p, Err::<ExprView, ParseErrView>(e)),
{
}

/// [`and_rest`] stops at a token that does not continue it.
pub proof fn lemma_and_rest_stop(t: Seq<TokenView>, c: int, left: ExprView)
    requires
        0 <= c < t.len(),
        !(kind(t, c) == TokenType::And),
    ensures
        and_rest(t, c, left) == (c, Ok::<ExprView, ParseErrView>(left)),
{
}

/// [`and_rest`] fails where its next operand fails.
pub proof fn lemma_and_rest_fail(t: Seq<TokenView>, c: int, left: ExprView, p: int, e: ParseErrView)
    requires
        0 <= c < t.len(),
        kind(t, c) == TokenType::And,
        equality(t, advance(t, c)) == (p, Err::<ExprView, ParseErrView>(e)),
    ensures
        and_rest(t, c, left) == (p, Err::<ExprView, ParseErrView>(e)),
{
}

/// [`equality_rest`] stops at a token that does not continue it.
pub proof fn lemma_equality_rest_stop(t: Seq<TokenView>, c: int, left: ExprView)
    requires
        0 <= c < t.len(),
        !(is_equality_op(kind(t, c))),
    ensures
        equality_rest(t, c, left) == (c, Ok::<ExprView, ParseErrView>(left)),
{
}

/// [`equality_rest`] fails where its next operand fails.
pub proof fn lemma_equality_rest_fail(t: Seq<TokenView>, c: int, left: ExprView, p: int, e: ParseErrView)
    requires
        0 <= c < t.len(),
        is_equality_op(kind(t, c)),
        comparison(t, advance(t, c)) == (p, Err::<ExprView, ParseErrView>(e)),
    ensures
        equality_rest(t, c, left) == (p, Err::<ExprView, ParseErrView>(e)),
{
}

/// [`comparison_rest`] stops at a token that does not continue it.
pub proof fn lemma_comparison_rest_stop(t: Seq<TokenView>, c: int, left: ExprView)
    requires
        0 <= c < t.len(),
        !(is_comparison_op(kind(t, c))),
    ensures
        comparison_rest(t, c, left) == (c, Ok::<ExprView, ParseErrView>(left)),
{
}

/// [`comparison_rest`] fails where its next operand fails.
pub proof fn lemma_comparison_rest_fail(t: Seq<TokenView>, c: int, left: ExprView, p: int, e: ParseErrView)
    requires
        0 <= c < t.len(),
        is_comparison_op(kind(t, c)),
        term(t, advance(t, c)) == (p, Err::<ExprView, ParseErrView>(e)),
    ensures
        comparison_rest(t, c, left) == (p, Err::<ExprView, ParseErrView>(e)),
{
}

/// [`term_rest`] stops at a token that does not continue it.
pub proof fn lemma_term_rest_stop(t: Seq<TokenView>, c: int, left: ExprView)
    requires
        0 <= c < t.len(),
        !(is_term_op(kind(t, c))),
    ensures
        term_rest(t, c, left) == (c, Ok::<ExprView, ParseErrView>(left)),
{
}

/// [`term_rest`] fails where its next operand fails.
pub proof fn lemma_term_rest_fail(t: Seq<TokenView>, c: int, left: ExprView, p: int, e: ParseErrView)
    requires
        0 <= c < t.len(),
        is_term_op(kind(t, c)),
        factor(t, advance(t, c)) == (p, Err::<ExprView, ParseErrView>(e)),
    ensures
        term_rest(t, c, left) == (p, Err::<ExprView, ParseErrView>(e)),
{
}

/// [`factor_rest`] stops at a token that does not continue it.
pub proof fn lemma_factor_rest_stop(t: Seq<TokenView>, c: int, left: ExprView)
    requires
        0 <= c < t.len(),
        !(is_factor_op(kind(t, c))),
    ensures
        factor_rest(t, c, left) == (c, Ok::<ExprView, ParseErrView>(left)),
{
}

/// [`factor_rest`] fails where its next operand fails.
pub proof fn lemma_factor_rest_fail(t: Seq<TokenView>, c: int, left: ExprView, p: int, e: ParseErrView)
    requires
        0 <= c < t.len(),
        is_factor_op(kind(t, c)),
        unary(t, advance(t, c)) == (p, Err::<ExprView, ParseErrView>(e)),
    ensures
        factor_rest(t, c, left) == (p, Err::<ExprView, ParseErrView>(e)),
{
}

/// [`call_rest`] stops at a token that does not continue it.
pub proof fn lemma_call_rest_stop(t: Seq<TokenView>, c: int, left: ExprView)
    requires
        0 <= c < t.len(),
        !(kind(t, c) == TokenType::LeftParen),
    ensures
        call_rest(t, c, left) == (c, Ok::<ExprView, ParseErrView>(left)),
{
}

/// [`call_rest`] fails where its next operand fails.
pub proof fn lemma_call_rest_fail(t: Seq<TokenView>, c: int, left: ExprView, p: int, e: ParseErrView)
    requires
        0 <= c < t.len(),
        kind(t, c) == TokenType::LeftParen,
        finish_call(t, advance(t, c), left) == (p, Err::<ExprView, ParseErrView>(e)),
    ensures
        call_rest(t, c, left) == (p, Err::<ExprView, ParseErrView>(e)),
{
}

/// [`argument_list`] fails where an argument fails.
pub proof fn lemma_argument_list_fail(t: Seq<TokenView>, c: int, args: Seq<ExprView>, p: int, e: ParseErrView)
    requires
        0 <= c < t.len(),
        expression(t, c) == (p, Err::<ExprView, ParseErrView>(e)),
    ensures
        argument_list(t, c, args) == (p, Err::<Seq<ExprView>, ParseErrView>(e)),
{
}

/// [`argument_list`] stops after an argument that no `,` follows.
pub proof fn lemma_argument_list_stop(t: Seq<TokenView>, c: int, args: Seq<ExprView>, a: ExprView, q: int)
    requires
        0 <= c < t.len(),
        expression(t, c) == (q, Ok::<ExprView, ParseErrView>(a)),
        c < q < t.len(),
        kind(t, q) != TokenType::Comma,
    ensures
        argument_list(t, c, args) == (q, Ok::<Seq<ExprView>, ParseErrView>(args.push(a))),
{
}


/// A declaration inside a block, after which the block goes on at `p1`.
pub proof fn lemma_block_rest_step(t: Seq<TokenView>, p: int, stmts: Seq<StmtView>, errs: Seq<ParseErrView>)
    requires
        0 <= p < t.len(),
        !at_end(t, p),
        kind(t, p) != TokenType::RightBrace,
        p < declaration(t, p).0 < t.len(),
    ensures
        block_rest(t, p, stmts, errs) == block_rest(
            t,
            declaration(t, p).0,
            push_some(stmts, declaration(t, p).2),
            errs + declaration(t, p).1,
        ),
{
}

/// The end of a block: its `}`, or the error for a missing one.
pub proof fn lemma_block_rest_end(t: Seq<TokenView>, p: int, stmts: Seq<StmtView>, errs: Seq<ParseErrView>)
    requires
        0 <= p < t.len(),
        at_end(t, p) || kind(t, p) == TokenType::RightBrace,
    ensures
        block_rest(t, p, stmts, errs) == if kind(t, p) == TokenType::RightBrace {
            (advance(t, p), errs, Ok::<Seq<StmtView>, ParseErrView>(stmts))
        } else {
            (p, errs, Err::<Seq<StmtView>, ParseErrView>(perr(t[p], "Expected '}' after block."@)))
        },
{
}

/// A declaration of a program, after which the program goes on at `p1`.
pub proof fn lemma_program_rest_step(t: Seq<TokenView>, p: int, stmts: Seq<StmtView>, errs: Seq<ParseErrView>)
    requires
        0 <= p < t.len(),
        !at_end(t, p),
        p < declaration(t, p).0 < t.len(),
    ensures
        program_rest(t, p, stmts, errs) == program_rest(
            t,
            declaration(t, p).0,
            push_some(stmts, declaration(t, p).2),
            errs + declaration(t, p).1,
        ),
{
}

/// A program ends at its last token.
pub proof fn lemma_program_rest_end(t: Seq<TokenView>, p: int, stmts: Seq<StmtView>, errs: Seq<ParseErrView>)
    requires
        0 <= p < t.len(),
        at_end(t, p),
    ensures
        program_rest(t, p, stmts, errs) == (stmts, errs),
{
}

/// One step of [`synchronize_rest`].
pub proof fn lemma_synchronize_rest(t: Seq<TokenView>, p: int)
    requires
        0 <= p < t.len(),
    ensures
        synchronize_rest(t, p) == if at_end(t, p) || kind(t, p - 1) == TokenType::Semicolon {
            p
        } else if begins_declaration(kind(t, p + 1)) {
            p + 1
        } else {
            synchronize_rest(t, p + 1)
        },
{
}

} // verus!
