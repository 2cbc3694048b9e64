//! The parser: recursive descent over a token sequence, one function per
//! precedence level, each binary level left-associative.
//!
//! Levels, from the loosest binding to the tightest: equality (`==`, `!=`),
//! comparison (`>`, `>=`, `<`, `<=`), term (`+`, `-`), factor (`*`, `/`),
//! unary (`!`, `-`), and primary expressions.
use vstd::prelude::*;

use crate::expression::{BinaryExpr, Expr, GroupingExpr, UnaryExpr};
use crate::token::{token_text, Token, TokenKind, TokenValue};

verus! {

/// Why a parse failed.
#[derive(Debug, PartialEq)]
pub enum ParserError {
    ExpectedExpression,
    ExpectedPrimaryExpressionGot(Token),
    UnclosedParenthesis,
}

/// The message that reports a parse error.
pub open spec fn parser_error_text(e: ParserError) -> Seq<char> {
    match e {
        ParserError::ExpectedExpression => "Expected expression"@,
        ParserError::ExpectedPrimaryExpressionGot(t) => "Expected primary expression got "@
            + token_text(t),
        ParserError::UnclosedParenthesis => "Unclosed parenthesis"@,
    }
}

impl ParserError {
    /// The message that reports this error.
    pub fn message(&self) -> (r: String)
        ensures
            r@ == parser_error_text(*self),
    {
        match self {
            ParserError::ExpectedExpression => String::from_str("Expected expression"),
            ParserError::ExpectedPrimaryExpressionGot(token) => {
                let mut out = String::from_str("Expected primary expression got ");
                let shown = token.display_text();
                out.append(shown.as_str());
                out
            },
            ParserError::UnclosedParenthesis => String::from_str("Unclosed parenthesis"),
        }
    }
}

/// The binary level of equality operators.
pub const EQUALITY: u8 = 4;

/// The binary level of comparison operators.
pub const COMPARISON: u8 = 3;

/// The binary level of additive operators.
pub const TERM: u8 = 2;

/// The binary level of multiplicative operators.
pub const FACTOR: u8 = 1;

/// Whether `kind` is an operator of binary level `level`.
pub open spec fn level_operator(level: nat, kind: TokenKind) -> bool {
    if level == EQUALITY {
        kind == TokenKind::BangEqual || kind == TokenKind::EqualEqual
    } else if level == COMPARISON {
        kind == TokenKind::Greater || kind == TokenKind::GreaterEqual || kind == TokenKind::Less
            || kind == TokenKind::LessEqual
    } else if level == TERM {
        kind == TokenKind::Minus || kind == TokenKind::Plus
    } else {
        kind == TokenKind::Slash || kind == TokenKind::Star
    }
}

/// Whether `kind` is a prefix operator.
pub open spec fn unary_operator(kind: TokenKind) -> bool {
    kind == TokenKind::Bang || kind == TokenKind::Minus
}

/// Whether `kind` begins a statement, where recovery after an error stops.
pub open spec fn starts_statement(kind: TokenKind) -> bool {
    kind == TokenKind::Class || kind == TokenKind::Fun || kind == TokenKind::Var || kind
        == TokenKind::For || kind == TokenKind::If || kind == TokenKind::While || kind
        == TokenKind::Print || kind == TokenKind::Return
}

/// The outcome of a parse step: the tree or the error, and the position after.
pub type Parsed = (Result<Expr, ParserError>, int);

/// The binary node of `left`, `op` and `right`.
pub open spec fn binary_node(left: Expr, op: Token, right: Expr) -> Expr {
    Expr::Binary(BinaryExpr { left: Box::new(left), operator: op, right: Box::new(right) })
}

/// A full expression from position `p`.
pub open spec fn parse_expression(t: Seq<Token>, p: int) -> Parsed
    decreases t.len() - p, 6int, 2int,
{
    parse_binary(t, p, EQUALITY as nat)
}

/// An operand of binary level `level` from position `p`: an expression of the
/// next tighter level.
pub open spec fn parse_operand(t: Seq<Token>, p: int, level: nat) -> Parsed
    decreases t.len() - p, level + 2, 0int,
{
    if level <= 1 {
        parse_unary(t, p)
    } else {
        parse_binary(t, p, (level - 1) as nat)
    }
}

/// An expression of binary level `level` from position `p`: an operand, then
/// any number of operators of the level, each with its right operand.
pub open spec fn parse_binary(t: Seq<Token>, p: int, level: nat) -> Parsed
    decreases t.len() - p, level + 2, 1int,
{
    let first = parse_operand(t, p, level);
    match first.0 {
        Ok(left) => if p <= first.1 <= t.len() {
            binary_rest(t, first.1, level, left)
        } else {
            first
        },
        Err(_) => first,
    }
}

/// The rest of a left-associative chain of binary level `level` from position
/// `q`, where `left` is the tree so far.
pub open spec fn binary_rest(t: Seq<Token>, q: int, level: nat, left: Expr) -> Parsed
    decreases t.len() - q, level + 2, 0int,
{
    if 0 <= q < t.len() && level_operator(level, t[q].kind) {
        let right = parse_operand(t, q + 1, level);
        match right.0 {
            Ok(r) => if q < right.1 <= t.len() {
                binary_rest(t, right.1, level, binary_node(left, t[q], r))
            } else {
                right
            },
            Err(_) => right,
        }
    } else {
        (Ok(left), q)
    }
}

/// A unary expression from position `p`: prefix operators, then a primary
/// expression.
pub open spec fn parse_unary(t: Seq<Token>, p: int) -> Parsed
    decreases t.len() - p, 1int, 0int,
{
    if 0 <= p < t.len() && unary_operator(t[p].kind) {
        let right = parse_unary(t, p + 1);
        match right.0 {
            Ok(r) => (
                Ok(Expr::Unary(UnaryExpr { operator: t[p], right: Box::new(r) })),
                right.1,
            ),
            Err(_) => right,
        }
    } else {
        parse_primary(t, p)
    }
}

/// A primary expression from position `p`: a literal, or a parenthesised
/// expression.
pub open spec fn parse_primary(t: Seq<Token>, p: int) -> Parsed
    decreases t.len() - p, 0int, 0int,
{
    if p < 0 || p >= t.len() {
        (Err(ParserError::ExpectedExpression), p)
    } else {
        let token = t[p];
        match token.kind {
            TokenKind::False => (Ok(Expr::BooleanLiteral(false)), p + 1),
            TokenKind::True => (Ok(Expr::BooleanLiteral(true)), p + 1),
            TokenKind::Nil => (Ok(Expr::NilLiteral), p + 1),
            TokenKind::Number | TokenKind::String => match token.value {
                Some(TokenValue::String(s)) => (Ok(Expr::StringLiteral(s)), p + 1),
                Some(TokenValue::Number(d)) => (Ok(Expr::NumberLiteral(d)), p + 1),
                None => (Err(ParserError::ExpectedPrimaryExpressionGot(token)), p + 1),
            },
            TokenKind::LeftParen => parse_group(t, p + 1),
            _ => (Err(ParserError::ExpectedPrimaryExpressionGot(token)), p + 1),
        }
    }
}

/// The inside of a parenthesised expression from position `p`, just after
/// its opening parenthesis, with the closing one.
pub open spec fn parse_group(t: Seq<Token>, p: int) -> Parsed
    decreases t.len() - p, 7int, 0int,
{
    let inner = parse_expression(t, p);
    match inner.0 {
        Ok(e) => {
            let q = inner.1;
            if 0 <= q < t.len() && t[q].kind == TokenKind::RightParen && t[q].value is None {
                (Ok(Expr::Grouping(GroupingExpr { expression: Box::new(e) })), q + 1)
            } else if 0 <= q < t.len() {
                (Err(ParserError::UnclosedParenthesis), q + 1)
            } else {
                (Err(ParserError::UnclosedParenthesis), q)
            }
        },
        Err(_) => inner,
    }
}

/// Where recovery after an error stops, from position `q`: just after the
/// next semicolon, or at the next token that begins a statement, or at the
/// end.
pub open spec fn synchronise_end(t: Seq<Token>, q: int) -> int
    decreases t.len() - q,
{
    if q < 0 || q >= t.len() {
        q
    } else if t[q].kind == TokenKind::Semicolon {
        q + 1
    } else if starts_statement(t[q].kind) {
        q
    } else {
        synchronise_end(t, q + 1)
    }
}

/// A parse from position `p`: an expression, with recovery after an error.
pub open spec fn parse_tokens(t: Seq<Token>, p: int) -> Parsed {
    let r = parse_expression(t, p);
    match r.0 {
        Ok(_) => r,
        Err(_) => (r.0, synchronise_end(t, r.1)),
    }
}

/// A parser over an owned token sequence, with a cursor into it.
pub struct Parser {
    tokens: Vec<Token>,
    current: usize,
}

impl Parser {
    /// The tokens being parsed.
    pub closed spec fn tokens(&self) -> Seq<Token> {
        self.tokens@
    }

    /// The position of the next token.
    pub closed spec fn position(&self) -> int {
        self.current as int
    }

    /// Well formed: the cursor lies within the tokens.
    pub closed spec fn wf(&self) -> bool {
        self.current <= self.tokens@.len()
    }

    /// A parser at the start of `tokens`.
    pub fn new(tokens: Vec<Token>) -> (r: Parser)
        ensures
            r.wf(),
            r.tokens() == tokens@,
            r.position() == 0,
    {
        Parser { tokens, current: 0 }
    }

    /// Parses one expression. After an error the cursor moves on to where a
    /// following form may start.
    pub fn parse(&mut self) -> (r: Result<Expr, ParserError>)
        requires
            old(self).wf(),
        ensures
            final(self).wf(),
            final(self).tokens() == old(self).tokens(),
            (r, final(self).position()) == parse_tokens(old(self).tokens(), old(self).position()),
    {
        match self.expression() {
            Ok(expr) => Ok(expr),
            Err(err) => {
                self.synchronise();
                Err(err)
            },
        }
    }

    /// The kind of the next token, without consuming it.
    fn peek_kind(&self) -> (r: Option<TokenKind>)
        ensures
            r == if self.current < self.tokens@.len() {
                Some(self.tokens@[self.current as int].kind)
            } else {
                None::<TokenKind>
            },
    {
        if self.current < self.tokens.len() {
            Some(self.tokens[self.current].kind)
        } else {
            None
        }
    }

    /// Consumes the next token.
    fn next(&mut self) -> (r: Option<Token>)
        requires
            old(self).wf(),
        ensures
            final(self).wf(),
            final(self).tokens@ == old(self).tokens@,
            old(self).current < old(self).tokens@.len() ==> r == Some(
                old(self).tokens@[old(self).current as int],
            ) && final(self).current == old(self).current + 1,
            old(self).current >= old(self).tokens@.len() ==> r is None && final(self).current
                == old(self).current,
    {
        if self.current < self.tokens.len() {
            let token = self.tokens[self.current].duplicate();
            self.current = self.current + 1;
            Some(token)
        } else {
            None
        }
    }

    /// Consumes the next token where it is an operator of binary level `level`.
    fn match_next(&mut self, level: u8) -> (r: Option<Token>)
        requires
            old(self).wf(),
        ensures
            final(self).wf(),
            final(self).tokens@ == old(self).tokens@,
            ({
                let t = old(self).tokens@;
                let q = old(self).current as int;
                if 0 <= q < t.len() && level_operator(level as nat, t[q].kind) {
                    r == Some(t[q]) && final(self).current == q + 1
                } else {
                    r is None && final(self).current == q
                }
            }),
    {
        if let Some(kind) = self.peek_kind() {
            let found = if level == EQUALITY {
                kind == TokenKind::BangEqual || kind == TokenKind::EqualEqual
            } else if level == COMPARISON {
                kind == TokenKind::Greater || kind == TokenKind::GreaterEqual || kind
                    == TokenKind::Less || kind == TokenKind::LessEqual
            } else if level == TERM {
                kind == TokenKind::Minus || kind == TokenKind::Plus
            } else {
                kind == TokenKind::Slash || kind == TokenKind::Star
            };
            if found {
                return self.next();
            }
        }
        None
    }

    /// A full expression.
    fn expression(&mut self) -> (r: Result<Expr, ParserError>)
        requires
            old(self).wf(),
        ensures
            final(self).wf(),
            final(self).tokens@ == old(self).tokens@,
            old(self).current <= final(self).current,
            r is Ok ==> old(self).current < final(self).current,
            (r, final(self).current as int) == parse_expression(
                old(self).tokens@,
                old(self).current as int,
            ),
        decreases old(self).tokens@.len() - old(self).current, 6int, 2int,
    {
        self.binary(EQUALITY)
    }

    /// An operand of binary level `level`.
    fn operand(&mut self, level: u8) -> (r: Result<Expr, ParserError>)
        requires
            old(self).wf(),
            1 <= level <= EQUALITY,
        ensures
            final(self).wf(),
            final(self).tokens@ == old(self).tokens@,
            old(self).current <= final(self).current,
            r is Ok ==> old(self).current < final(self).current,
            (r, final(self).current as int) == parse_operand(
                old(self).tokens@,
                old(self).current as int,
                level as nat,
            ),
        decreases old(self).tokens@.len() - old(self).current, level + 2, 0int,
    {
        if level == FACTOR {
            self.unary()
        } else {
            self.binary(level - 1)
        }
    }

    /// An expression of binary level `level`: a left-associative chain of
    /// operands joined by operators of that level.
    fn binary(&mut self, level: u8) -> (r: Result<Expr, ParserError>)
        requires
            old(self).wf(),
            1 <= level <= EQUALITY,
        ensures
            final(self).wf(),
            final(self).tokens@ == old(self).tokens@,
            old(self).current <= final(self).current,
            r is Ok ==> old(self).current < final(self).current,
            (r, final(self).current as int) == parse_binary(
                old(self).tokens@,
                old(self).current as int,
                level as nat,
            ),
        decreases old(self).tokens@.len() - old(self).current, level + 2, 1int,
    {
        let ghost t = self.tokens@;
        let ghost p = self.current as int;
        let mut expr = match self.operand(level) {
            Ok(e) => e,
            Err(e) => return Err(e),
        };
        loop
            invariant
                self.wf(),
                self.tokens@ == t,
                t == old(self).tokens@,
                p == old(self).current,
                1 <= level <= EQUALITY,
                p < self.current,
                parse_binary(t, p, level as nat) == binary_rest(
                    t,
                    self.current as int,
                    level as nat,
                    expr,
                ),
            ensures
                self.wf(),
                self.tokens@ == t,
                p < self.current,
                parse_binary(t, p, level as nat) == (Ok::<Expr, ParserError>(expr), self.current as int),
            decreases t.len() - self.current,
        {
            let ghost q = self.current as int;
            let ghost left = expr;
            match self.match_next(level) {
                None => break,
                Some(operator) => {
                    let right = match self.operand(level) {
                        Ok(e) => e,
                        Err(e) => return Err(e),
                    };
                    expr = Expr::Binary(BinaryExpr::new(expr, operator, right));
                    assert(expr == binary_node(left, t[q], right));
                },
            }
        }
        Ok(expr)
    }

    /// A unary expression: a prefix operator applied to a unary expression,
    /// or a primary expression.
    fn unary(&mut self) -> (r: Result<Expr, ParserError>)
        requires
            old(self).wf(),
        ensures
            final(self).wf(),
            final(self).tokens@ == old(self).tokens@,
            old(self).current <= final(self).current,
            r is Ok ==> old(self).current < final(self).current,
            (r, final(self).current as int) == parse_unary(
                old(self).tokens@,
                old(self).current as int,
            ),
        decreases old(self).tokens@.len() - old(self).current, 1int, 0int,
    {
        if let Some(kind) = self.peek_kind() {
            if kind == TokenKind::Bang || kind == TokenKind::Minus {
                if let Some(operator) = self.next() {
                    let right = self.unary()?;
                    return Ok(Expr::Unary(UnaryExpr::new(operator, right)));
                }
            }
        }
        self.primary()
    }

    /// A primary expression: a literal or a parenthesised expression.
    fn primary(&mut self) -> (r: Result<Expr, ParserError>)
        requires
            old(self).wf(),
        ensures
            final(self).wf(),
            final(self).tokens@ == old(self).tokens@,
            old(self).current <= final(self).current,
            r is Ok ==> old(self).current < final(self).current,
            (r, final(self).current as int) == parse_primary(
                old(self).tokens@,
                old(self).current as int,
            ),
        decreases old(self).tokens@.len() - old(self).current, 0int, 0int,
    {
        match self.next() {
            None => Err(ParserError::ExpectedExpression),
            Some(token) => match token.kind {
                TokenKind::False => Ok(Expr::BooleanLiteral(false)),
                TokenKind::True => Ok(Expr::BooleanLiteral(true)),
                TokenKind::Nil => Ok(Expr::NilLiteral),
                TokenKind::Number | TokenKind::String => match token.value {
                    Some(TokenValue::String(s)) => Ok(Expr::StringLiteral(s)),
                    Some(TokenValue::Number(d)) => Ok(Expr::NumberLiteral(d)),
                    None => Err(ParserError::ExpectedPrimaryExpressionGot(token)),
                },
                TokenKind::LeftParen => self.parenthesis(),
                _ => Err(ParserError::ExpectedPrimaryExpressionGot(token)),
            },
        }
    }

    /// The rest of a parenthesised expression, after its opening parenthesis.
    fn parenthesis(&mut self) -> (r: Result<Expr, ParserError>)
        requires
            old(self).wf(),
        ensures
            final(self).wf(),
            final(self).tokens@ == old(self).tokens@,
            old(self).current <= final(self).current,
            r is Ok ==> old(self).current < final(self).current,
            (r, final(self).current as int) == parse_group(
                old(self).tokens@,
                old(self).current as int,
            ),
        decreases old(self).tokens@.len() - old(self).current, 7int, 0int,
    {
        let expr = self.expression()?;
        match self.next() {
            Some(token) => {
                if token.kind == TokenKind::RightParen && token.value.is_none() {
                    Ok(Expr::Grouping(GroupingExpr::new(expr)))
                } else {
                    Err(ParserError::UnclosedParenthesis)
                }
            },
            None => Err(ParserError::UnclosedParenthesis),
        }
    }

    /// Discards tokens up to just after the next semicolon, or up to the next
    /// token that begins a statement, or to the end.
    fn synchronise(&mut self)
        requires
            old(self).wf(),
        ensures
            final(self).wf(),
            final(self).tokens@ == old(self).tokens@,
            final(self).current == synchronise_end(old(self).tokens@, old(self).current as int),
    {
        let ghost t = self.tokens@;
        let ghost start = self.current as int;
        loop
            invariant_except_break
                self.wf(),
                self.tokens@ == t,
                synchronise_end(t, self.current as int) == synchronise_end(t, start),
            ensures
                self.wf(),
                self.tokens@ == t,
                self.current == synchronise_end(t, start),
            decreases t.len() - self.current,
        {
            match self.peek_kind() {
                None => break,
                Some(kind) => {
                    if kind == TokenKind::Semicolon {
                        self.next();
                        break;
                    }
                    if kind == TokenKind::Class || kind == TokenKind::Fun || kind == TokenKind::Var
                        || kind == TokenKind::For || kind == TokenKind::If || kind
                        == TokenKind::While || kind == TokenKind::Print || kind
                        == TokenKind::Return {
                        break;
                    }
                    self.next();
                },
            }
        }
    }
}

} // verus!
