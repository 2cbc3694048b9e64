//! The tree printer: every composite node in its own parentheses, operator
//! first, so the text shows the structure without any precedence rules.
use vstd::prelude::*;

use crate::expression::Expr;
use crate::text::push_char;
use crate::token::{
    digit_prefix, is_decimal_text, leading_zeros_end, lemma_digit_prefix, number_text, token_text,
    trailing_zeros_start,
};

verus! {

/// The printed form of `e`.
pub open spec fn ast_text(e: Expr) -> Seq<char>
    decreases e,
{
    match e {
        Expr::BooleanLiteral(b) => if b {
            "true"@
        } else {
            "false"@
        },
        Expr::NumberLiteral(d) => number_text(d@),
        Expr::StringLiteral(s) => seq!['"'] + s@ + seq!['"'],
        Expr::NilLiteral => "nil"@,
        Expr::Unary(u) => seq!['('] + token_text(u.operator) + seq![' '] + ast_text(*u.right)
            + seq![')'],
        Expr::Binary(b) => seq!['('] + token_text(b.operator) + seq![' '] + ast_text(*b.left)
            + seq![' '] + ast_text(*b.right) + seq![')'],
        Expr::Grouping(g) => seq!['('] + "group "@ + ast_text(*g.expression) + seq![')'],
    }
}

/// Rendering as a fully parenthesised prefix text.
pub trait AstDisplay {
    /// The printed form of this value.
    spec fn ast_spec(&self) -> Seq<char>;

    /// Prints this value.
    fn ast(&self) -> (r: String)
        ensures
            r@ == self.ast_spec(),
    ;
}

impl AstDisplay for Expr {
    open spec fn ast_spec(&self) -> Seq<char> {
        ast_text(*self)
    }

    fn ast(&self) -> (r: String) {
        print_expr(self)
    }
}

/// Prints `e`.
pub fn print_expr(e: &Expr) -> (r: String)
    ensures
        r@ == ast_text(*e),
    decreases e,
{
    match e {
        Expr::BooleanLiteral(b) => {
            if *b {
                String::from_str("true")
            } else {
                String::from_str("false")
            }
        },
        Expr::NumberLiteral(d) => d.display_text(),
        Expr::StringLiteral(s) => {
            let mut out = String::new();
            push_char(&mut out, '"');
            out.append(s.as_str());
            push_char(&mut out, '"');
            out
        },
        Expr::NilLiteral => String::from_str("nil"),
        Expr::Unary(u) => {
            let mut out = String::new();
            push_char(&mut out, '(');
            let op = u.operator.display_text();
            out.append(op.as_str());
            push_char(&mut out, ' ');
            let right = print_expr(&u.right);
            out.append(right.as_str());
            push_char(&mut out, ')');
            out
        },
        Expr::Binary(b) => {
            let mut out = String::new();
            push_char(&mut out, '(');
            let op = b.operator.display_text();
            out.append(op.as_str());
            push_char(&mut out, ' ');
            let left = print_expr(&b.left);
            out.append(left.as_str());
            push_char(&mut out, ' ');
            let right = print_expr(&b.right);
            out.append(right.as_str());
            push_char(&mut out, ')');
            out
        },
        Expr::Grouping(g) => {
            let mut out = String::new();
            push_char(&mut out, '(');
            out.append("group ");
            let inner = print_expr(&g.expression);
            out.append(inner.as_str());
            push_char(&mut out, ')');
            out
        },
    }
}

/// The number of occurrences of `c` in `s`.
pub open spec fn count_char(s: Seq<char>, c: char) -> int
    decreases s.len(),
{
    if s.len() == 0 {
        0
    } else {
        count_char(s.drop_last(), c) + if s.last() == c {
            1int
        } else {
            0int
        }
    }
}

/// Opening parentheses in `s` less closing ones.
pub open spec fn excess(s: Seq<char>) -> int {
    count_char(s, '(') - count_char(s, ')')
}

/// Starting from `base` open parentheses, no prefix of `s` closes more than
/// are open.
pub open spec fn never_below(s: Seq<char>, base: int) -> bool {
    forall|i: int| 0 <= i <= s.len() ==> base + excess(#[trigger] s.take(i)) >= 0
}

/// Every closing parenthesis of `s` closes an earlier opening one, and every
/// opening one is closed.
pub open spec fn balanced(s: Seq<char>) -> bool {
    never_below(s, 0) && excess(s) == 0
}

/// `s` holds no parenthesis.
pub open spec fn paren_free(s: Seq<char>) -> bool {
    forall|i: int| 0 <= i < s.len() ==> #[trigger] s[i] != '(' && s[i] != ')'
}

/// The number of composite (unary, binary and grouping) nodes of `e`.
pub open spec fn composite_count(e: Expr) -> int
    decreases e,
{
    match e {
        Expr::Unary(u) => 1 + composite_count(*u.right),
        Expr::Binary(b) => 1 + composite_count(*b.left) + composite_count(*b.right),
        Expr::Grouping(g) => 1 + composite_count(*g.expression),
        _ => 0,
    }
}

/// No operator and no text literal of `e` shows a parenthesis, and each number
/// literal is well formed.
pub open spec fn leaves_paren_free(e: Expr) -> bool
    decreases e,
{
    match e {
        Expr::NumberLiteral(d) => d.wf(),
        Expr::StringLiteral(s) => paren_free(s@),
        Expr::Unary(u) => paren_free(token_text(u.operator)) && leaves_paren_free(*u.right),
        Expr::Binary(b) => paren_free(token_text(b.operator)) && leaves_paren_free(*b.left)
            && leaves_paren_free(*b.right),
        Expr::Grouping(g) => leaves_paren_free(*g.expression),
        _ => true,
    }
}

proof fn lemma_count_concat(a: Seq<char>, b: Seq<char>, c: char)
    ensures
        count_char(a + b, c) == count_char(a, c) + count_char(b, c),
    decreases b.len(),
{
    if b.len() == 0 {
        assert(a + b =~= a);
    } else {
        assert((a + b).drop_last() =~= a + b.drop_last());
        lemma_count_concat(a, b.drop_last(), c);
    }
}

proof fn lemma_append(a: Seq<char>, b: Seq<char>, base: int)
    ensures
        count_char(a + b, '(') == count_char(a, '(') + count_char(b, '('),
        count_char(a + b, ')') == count_char(a, ')') + count_char(b, ')'),
        never_below(a, base) && never_below(b, base + excess(a)) ==> never_below(a + b, base),
{
    lemma_count_concat(a, b, '(');
    lemma_count_concat(a, b, ')');
    if never_below(a, base) && never_below(b, base + excess(a)) {
        assert forall|i: int| 0 <= i <= (a + b).len() implies base + excess(
            #[trigger] (a + b).take(i),
        ) >= 0 by {
            if i <= a.len() {
                assert((a + b).take(i) =~= a.take(i));
            } else {
                assert((a + b).take(i) =~= a + b.take(i - a.len()));
                assert(b.take(i - a.len()) == b.take(i - a.len()));
                lemma_count_concat(a, b.take(i - a.len()), '(');
                lemma_count_concat(a, b.take(i - a.len()), ')');
                assert(a.take(a.len() as int) =~= a);
            }
        }
    }
}

proof fn lemma_paren_free(s: Seq<char>)
    requires
        paren_free(s),
    ensures
        count_char(s, '(') == 0,
        count_char(s, ')') == 0,
        forall|base: int| base >= 0 ==> #[trigger] never_below(s, base),
    decreases s.len(),
{
    if s.len() > 0 {
        lemma_paren_free(s.drop_last());
    }
    assert forall|i: int| 0 <= i <= s.len() implies excess(#[trigger] s.take(i)) == 0 by {
        if i < s.len() {
            lemma_paren_free(s.take(i));
        } else {
            assert(s.take(i) =~= s);
        }
    }
}

proof fn lemma_paren_free_concat(a: Seq<char>, b: Seq<char>)
    requires
        paren_free(a),
        paren_free(b),
    ensures
        paren_free(a + b),
{
    assert forall|i: int| 0 <= i < (a + b).len() implies #[trigger] (a + b)[i] != '(' && (a
        + b)[i] != ')' by {
        if i < a.len() {
            assert((a + b)[i] == a[i]);
        } else {
            assert((a + b)[i] == b[i - a.len()]);
        }
    }
}

proof fn lemma_open_close()
    ensures
        count_char(seq!['('], '(') == 1,
        count_char(seq!['('], ')') == 0,
        never_below(seq!['('], 0),
        count_char(seq![')'], '(') == 0,
        count_char(seq![')'], ')') == 1,
        never_below(seq![')'], 1),
        paren_free(seq![' ']),
        paren_free(seq!['"']),
        paren_free(seq!['.']),
{
    assert(seq!['('].drop_last() =~= Seq::<char>::empty());
    assert(seq![')'].drop_last() =~= Seq::<char>::empty());
    assert(count_char(Seq::<char>::empty(), '(') == 0);
    assert(count_char(Seq::<char>::empty(), ')') == 0);
    assert(excess(seq!['(']) == 1);
    assert(excess(seq![')']) == -1);
    assert forall|i: int| 0 <= i <= 1 implies excess(#[trigger] seq!['('].take(i)) >= 0 by {
        if i == 0 {
            assert(seq!['('].take(i) =~= Seq::<char>::empty());
        } else {
            assert(seq!['('].take(i) =~= seq!['(']);
        }
    }
    assert forall|i: int| 0 <= i <= 1 implies 1 + excess(#[trigger] seq![')'].take(i)) >= 0 by {
        if i == 0 {
            assert(seq![')'].take(i) =~= Seq::<char>::empty());
        } else {
            assert(seq![')'].take(i) =~= seq![')']);
        }
    }
}

proof fn lemma_leading_zeros_end(s: Seq<char>, i: int, k: int)
    requires
        0 <= i <= k <= s.len(),
    ensures
        i <= leading_zeros_end(s, i, k) <= k,
    decreases k - i,
{
    if i + 1 < k && s[i] == '0' {
        lemma_leading_zeros_end(s, i + 1, k);
    }
}

proof fn lemma_trailing_zeros_start(s: Seq<char>, j: int, lo: int)
    requires
        0 <= lo <= j <= s.len(),
    ensures
        lo <= trailing_zeros_start(s, j, lo) <= j,
    decreases j - lo,
{
    if lo < j && s[j - 1] == '0' {
        lemma_trailing_zeros_start(s, j - 1, lo);
    }
}

proof fn lemma_number_text_paren_free(s: Seq<char>)
    requires
        is_decimal_text(s),
    ensures
        paren_free(number_text(s)),
{
    let k = digit_prefix(s, 0);
    lemma_digit_prefix(s, 0);
    assert forall|i: int| 0 <= i < s.len() implies #[trigger] s[i] != '(' && s[i] != ')' by {
        if i > k {
            lemma_digit_prefix(s, k + 1);
        }
    }
    lemma_leading_zeros_end(s, 0, k);
    let a = leading_zeros_end(s, 0, k);
    assert(paren_free(s.subrange(a, k)));
    if k + 1 < s.len() {
        lemma_trailing_zeros_start(s, s.len() as int, k + 1);
        let e = trailing_zeros_start(s, s.len() as int, k + 1);
        assert(paren_free(s.subrange(k + 1, e)));
        lemma_open_close();
        lemma_paren_free_concat(s.subrange(a, k), seq!['.']);
        lemma_paren_free_concat(s.subrange(a, k) + seq!['.'], s.subrange(k + 1, e));
    }
}

/// The printer shows one pair of parentheses per composite node, and they
/// nest properly: the text holds as many opening as closing parentheses, as
/// many as the tree has unary, binary and grouping nodes, and no prefix closes
/// more than it opens. This holds of every tree whose operators and text
/// literals show no parenthesis themselves.
pub proof fn lemma_print_parentheses(e: Expr)
    requires
        leaves_paren_free(e),
    ensures
        count_char(ast_text(e), '(') == composite_count(e),
        count_char(ast_text(e), ')') == composite_count(e),
        balanced(ast_text(e)),
    decreases e,
{
    lemma_open_close();
    let open = seq!['('];
    let close = seq![')'];
    let space = seq![' '];
    match e {
        Expr::BooleanLiteral(b) => {
            reveal_strlit("true");
            reveal_strlit("false");
            lemma_paren_free(ast_text(e));
        },
        Expr::NumberLiteral(d) => {
            lemma_number_text_paren_free(d@);
            lemma_paren_free(ast_text(e));
        },
        Expr::StringLiteral(s) => {
            lemma_paren_free_concat(seq!['"'], s@);
            lemma_paren_free_concat(seq!['"'] + s@, seq!['"']);
            lemma_paren_free(ast_text(e));
        },
        Expr::NilLiteral => {
            reveal_strlit("nil");
            lemma_paren_free(ast_text(e));
        },
        Expr::Unary(u) => {
            let op = token_text(u.operator);
            let r = ast_text(*u.right);
            lemma_print_parentheses(*u.right);
            lemma_paren_free(op);
            lemma_paren_free(space);
            lemma_append(open, op, 0);
            lemma_append(open + op, space, 0);
            lemma_append(open + op + space, r, 0);
            lemma_append(open + op + space + r, close, 0);
        },
        Expr::Binary(b) => {
            let op = token_text(b.operator);
            let l = ast_text(*b.left);
            let r = ast_text(*b.right);
            lemma_print_parentheses(*b.left);
            lemma_print_parentheses(*b.right);
            lemma_paren_free(op);
            lemma_paren_free(space);
            lemma_append(open, op, 0);
            lemma_append(open + op, space, 0);
            lemma_append(open + op + space, l, 0);
            lemma_append(open + op + space + l, space, 0);
            lemma_append(open + op + space + l + space, r, 0);
            lemma_append(open + op + space + l + space + r, close, 0);
        },
        Expr::Grouping(g) => {
            let inner = ast_text(*g.expression);
            lemma_print_parentheses(*g.expression);
            reveal_strlit("group ");
            lemma_paren_free("group "@);
            lemma_append(open, "group "@, 0);
            lemma_append(open + "group "@, inner, 0);
            lemma_append(open + "group "@ + inner, close, 0);
        },
    }
}

} // verus!
