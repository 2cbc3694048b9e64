//! The surface syntax of a tree, and the proof that the parser reads it back.
//!
//! A tree is in surface form where it nests as the grammar nests: the operand
//! of a prefix operator is unary or primary, and each binary node has a left
//! operand of its own level or tighter and a right operand strictly tighter.
//! Every tree the parser builds is in surface form, and the parser reads the
//! tokens of such a tree back to the very same tree.
use vstd::prelude::*;

use crate::ast_display::ast_text;
use crate::expression::{BinaryExpr, Expr, GroupingExpr};
use crate::parser::{
    binary_rest, level_operator, parse_binary, parse_expression, parse_group, parse_operand,
    parse_primary, parse_tokens, parse_unary, unary_operator, EQUALITY,
};
use crate::token::{Token, TokenKind, TokenValue};

verus! {

/// The binary level of an operator kind; zero for a kind that is none.
pub open spec fn op_level(kind: TokenKind) -> nat {
    if level_operator(4, kind) {
        4
    } else if level_operator(3, kind) {
        3
    } else if level_operator(2, kind) {
        2
    } else if level_operator(1, kind) {
        1
    } else {
        0
    }
}

/// A token without payload.
pub open spec fn bare_token(kind: TokenKind) -> Token {
    Token { kind, value: None }
}

/// The tokens that `e` stands for: operators infix, groupings in parentheses.
pub open spec fn surface(e: Expr) -> Seq<Token>
    decreases e,
{
    match e {
        Expr::BooleanLiteral(b) => if b {
            seq![bare_token(TokenKind::True)]
        } else {
            seq![bare_token(TokenKind::False)]
        },
        Expr::NumberLiteral(d) => seq![
            Token { kind: TokenKind::Number, value: Some(TokenValue::Number(d)) },
        ],
        Expr::StringLiteral(s) => seq![
            Token { kind: TokenKind::String, value: Some(TokenValue::String(s)) },
        ],
        Expr::NilLiteral => seq![bare_token(TokenKind::Nil)],
        Expr::Unary(u) => seq![u.operator] + surface(*u.right),
        Expr::Binary(b) => surface(*b.left) + seq![b.operator] + surface(*b.right),
        Expr::Grouping(g) => seq![bare_token(TokenKind::LeftParen)] + surface(*g.expression)
            + seq![bare_token(TokenKind::RightParen)],
    }
}

/// `e` nests as the grammar nests, where an expression of rank at most `k`
/// is expected: primary expressions have rank 0, unary ones 1, and binary ones
/// one more than the level of their operator.
pub open spec fn surface_form(e: Expr, k: nat) -> bool
    decreases e,
{
    match e {
        Expr::Unary(u) => 1 <= k && unary_operator(u.operator.kind) && surface_form(*u.right, 1),
        Expr::Binary(b) => {
            let level = op_level(b.operator.kind);
            &&& 1 <= level
            &&& level + 1 <= k
            &&& surface_form(*b.left, level + 1)
            &&& surface_form(*b.right, level)
        },
        Expr::Grouping(g) => surface_form(*g.expression, 5),
        _ => true,
    }
}

/// No binary operator of level `level` or tighter stands at position `q`.
pub open spec fn stops(t: Seq<Token>, q: int, level: nat) -> bool {
    0 <= q < t.len() ==> (op_level(t[q].kind) == 0 || op_level(t[q].kind) > level)
}

/// `t` holds the surface of `e` from position `p` on.
pub open spec fn holds_at(t: Seq<Token>, p: int, e: Expr) -> bool {
    0 <= p && p + surface(e).len() <= t.len() && t.subrange(p, p + surface(e).len()) == surface(e)
}

proof fn lemma_split(t: Seq<Token>, p: int, a: Seq<Token>, b: Seq<Token>)
    requires
        0 <= p,
        p + a.len() + b.len() <= t.len(),
        t.subrange(p, p + a.len() + b.len()) == a + b,
    ensures
        t.subrange(p, p + a.len()) == a,
        t.subrange(p + a.len(), p + a.len() + b.len()) == b,
{
    assert(t.subrange(p, p + a.len()) =~= (a + b).subrange(0, a.len() as int));
    assert((a + b).subrange(0, a.len() as int) =~= a);
    assert(t.subrange(p + a.len(), p + a.len() + b.len()) =~= (a + b).subrange(
        a.len() as int,
        (a.len() + b.len()) as int,
    ));
    assert((a + b).subrange(a.len() as int, (a.len() + b.len()) as int) =~= b);
}

proof fn lemma_surface_nonempty(e: Expr)
    ensures
        surface(e).len() >= 1,
{
    match e {
        Expr::Unary(u) => {},
        Expr::Binary(b) => {},
        Expr::Grouping(g) => {},
        _ => {},
    }
}

proof fn lemma_read_binary(t: Seq<Token>, p: int, e: Expr, level: nat)
    requires
        1 <= level <= 4,
        surface_form(e, level + 1),
        holds_at(t, p, e),
        stops(t, p + surface(e).len(), level),
    ensures
        parse_binary(t, p, level) == (Ok::<Expr, crate::parser::ParserError>(e), p + surface(e).len()),
    decreases e, level, 1nat,
{
    lemma_read_chain(t, p, e, level);
}

proof fn lemma_read_chain(t: Seq<Token>, p: int, e: Expr, level: nat)
    requires
        1 <= level <= 4,
        surface_form(e, level + 1),
        holds_at(t, p, e),
        stops(t, p + surface(e).len(), (level - 1) as nat),
    ensures
        parse_binary(t, p, level) == binary_rest(t, p + surface(e).len(), level, e),
    decreases e, level, 0nat,
{
    let n = surface(e).len() as int;
    lemma_surface_nonempty(e);
    if e is Binary && op_level(e->Binary_0.operator.kind) == level {
        let b = e->Binary_0;
        let l = *b.left;
        let r = *b.right;
        let op = b.operator;
        let nl = surface(l).len() as int;
        let nr = surface(r).len() as int;
        lemma_surface_nonempty(r);
        lemma_split(t, p, surface(l) + seq![op], surface(r));
        lemma_split(t, p, surface(l), seq![op]);
        assert(t[p + nl] == op) by {
            assert(t.subrange(p + nl, p + nl + 1)[0] == op);
        }
        lemma_read_chain(t, p, l, level);
        if level == 1 {
            lemma_read_unary(t, p + nl + 1, r);
        } else {
            lemma_read_binary(t, p + nl + 1, r, (level - 1) as nat);
        }
        assert(parse_operand(t, p + nl + 1, level) == (
            Ok::<Expr, crate::parser::ParserError>(r),
            p + n,
        ));
        assert(Expr::Binary(BinaryExpr { left: Box::new(l), operator: t[p + nl], right: Box::new(r) })
            == e);
    } else {
        if level == 1 {
            lemma_read_unary(t, p, e);
        } else {
            lemma_read_binary(t, p, e, (level - 1) as nat);
        }
    }
}

proof fn lemma_read_unary(t: Seq<Token>, p: int, e: Expr)
    requires
        surface_form(e, 1),
        holds_at(t, p, e),
    ensures
        parse_unary(t, p) == (Ok::<Expr, crate::parser::ParserError>(e), p + surface(e).len()),
    decreases e, 0nat, 1nat,
{
    lemma_surface_nonempty(e);
    assert(t[p] == surface(e)[0]) by {
        assert(t.subrange(p, p + surface(e).len())[0] == t[p]);
    }
    match e {
        Expr::Unary(u) => {
            let r = *u.right;
            lemma_split(t, p, seq![u.operator], surface(r));
            lemma_read_unary(t, p + 1, r);
        },
        _ => {
            lemma_read_primary(t, p, e);
        },
    }
}

proof fn lemma_read_primary(t: Seq<Token>, p: int, e: Expr)
    requires
        surface_form(e, 0),
        holds_at(t, p, e),
    ensures
        parse_primary(t, p) == (Ok::<Expr, crate::parser::ParserError>(e), p + surface(e).len()),
    decreases e, 0nat, 0nat,
{
    lemma_surface_nonempty(e);
    assert(t[p] == surface(e)[0]) by {
        assert(t.subrange(p, p + surface(e).len())[0] == t[p]);
    }
    match e {
        Expr::Grouping(g) => {
            let inner = *g.expression;
            let ni = surface(inner).len() as int;
            let open = seq![bare_token(TokenKind::LeftParen)];
            let close = seq![bare_token(TokenKind::RightParen)];
            lemma_split(t, p, open + surface(inner), close);
            lemma_split(t, p, open, surface(inner));
            assert(t[p + 1 + ni] == bare_token(TokenKind::RightParen)) by {
                assert(t.subrange(p + 1 + ni, p + 2 + ni)[0] == t[p + 1 + ni]);
            }
            lemma_read_binary(t, p + 1, inner, 4);
            assert(parse_expression(t, p + 1) == (
                Ok::<Expr, crate::parser::ParserError>(inner),
                p + 1 + ni,
            ));
            assert(Expr::Grouping(GroupingExpr { expression: Box::new(inner) }) == e);
        },
        _ => {},
    }
}

/// The parser reads the surface of a tree in surface form back to that tree,
/// wherever the tokens after it do not continue a binary operation. So
/// printing a tree and printing what its surface syntax parses to give one
/// text.
pub proof fn lemma_reparse_surface(e: Expr, rest: Seq<Token>)
    requires
        surface_form(e, 5),
        stops(rest, 0, 4),
    ensures
        parse_tokens(surface(e) + rest, 0) == (
            Ok::<Expr, crate::parser::ParserError>(e),
            surface(e).len() as int,
        ),
        ast_text(parse_tokens(surface(e) + rest, 0).0->Ok_0) == ast_text(e),
{
    let t = surface(e) + rest;
    assert(t.subrange(0, surface(e).len() as int) =~= surface(e));
    assert(stops(t, surface(e).len() as int, 4)) by {
        if surface(e).len() < t.len() {
            assert(t[surface(e).len() as int] == rest[0]);
        }
    }
    lemma_read_binary(t, 0, e, EQUALITY as nat);
}

proof fn lemma_binary_form(t: Seq<Token>, p: int, level: nat)
    requires
        1 <= level <= 4,
    ensures
        parse_binary(t, p, level).0 matches Ok(e) ==> surface_form(e, level + 1),
    decreases t.len() - p, level + 2, 1int,
{
    let first = parse_operand(t, p, level);
    lemma_operand_form(t, p, level);
    if first.0 is Ok && p <= first.1 <= t.len() {
        lemma_rest_form(t, first.1, level, first.0->Ok_0);
    }
}

proof fn lemma_operand_form(t: Seq<Token>, p: int, level: nat)
    requires
        1 <= level <= 4,
    ensures
        parse_operand(t, p, level).0 matches Ok(e) ==> surface_form(e, level),
    decreases t.len() - p, level + 2, 0int,
{
    if level <= 1 {
        lemma_unary_form(t, p);
    } else {
        lemma_binary_form(t, p, (level - 1) as nat);
    }
}

proof fn lemma_rest_form(t: Seq<Token>, q: int, level: nat, left: Expr)
    requires
        1 <= level <= 4,
        surface_form(left, level + 1),
    ensures
        binary_rest(t, q, level, left).0 matches Ok(e) ==> surface_form(e, level + 1),
    decreases t.len() - q, level + 2, 0int,
{
    if 0 <= q < t.len() && level_operator(level, t[q].kind) {
        let right = parse_operand(t, q + 1, level);
        lemma_operand_form(t, q + 1, level);
        if right.0 is Ok && q < right.1 <= t.len() {
            let node = Expr::Binary(
                BinaryExpr {
                    left: Box::new(left),
                    operator: t[q],
                    right: Box::new(right.0->Ok_0),
                },
            );
            assert(op_level(t[q].kind) == level);
            assert(surface_form(node, level + 1));
            lemma_rest_form(t, right.1, level, node);
        }
    }
}

proof fn lemma_unary_form(t: Seq<Token>, p: int)
    ensures
        parse_unary(t, p).0 matches Ok(e) ==> surface_form(e, 1),
    decreases t.len() - p, 1int, 0int,
{
    if 0 <= p < t.len() && unary_operator(t[p].kind) {
        lemma_unary_form(t, p + 1);
    } else {
        lemma_primary_form(t, p);
    }
}

proof fn lemma_primary_form(t: Seq<Token>, p: int)
    ensures
        parse_primary(t, p).0 matches Ok(e) ==> surface_form(e, 0),
    decreases t.len() - p, 0int, 0int,
{
    if 0 <= p < t.len() && t[p].kind == TokenKind::LeftParen {
        lemma_group_form(t, p + 1);
    }
}

proof fn lemma_group_form(t: Seq<Token>, p: int)
    ensures
        parse_group(t, p).0 matches Ok(e) ==> surface_form(e, 0),
    decreases t.len() - p, 7int, 0int,
{
    lemma_binary_form(t, p, 4);
}

/// Every tree the parser builds nests as the grammar nests.
pub proof fn lemma_parsed_surface_form(t: Seq<Token>, p: int)
    ensures
        parse_tokens(t, p).0 matches Ok(e) ==> surface_form(e, 5),
{
    lemma_binary_form(t, p, EQUALITY as nat);
}

/// Printing is stable under a round trip through the surface syntax: take
/// the tree that the parser builds from some tokens, write it back as the
/// tokens it stands for, parse those again, and the same tree comes back, so
/// its printed text is the same.
pub proof fn lemma_print_reparse_print(t: Seq<Token>, p: int, rest: Seq<Token>)
    requires
        parse_tokens(t, p).0 is Ok,
        stops(rest, 0, 4),
    ensures
        ({
            let e = parse_tokens(t, p).0->Ok_0;
            &&& parse_tokens(surface(e) + rest, 0).0 == Ok::<Expr, crate::parser::ParserError>(e)
            &&& ast_text(parse_tokens(surface(e) + rest, 0).0->Ok_0) == ast_text(e)
        }),
{
    lemma_parsed_surface_form(t, p);
    lemma_reparse_surface(parse_tokens(t, p).0->Ok_0, rest);
}

} // verus!
