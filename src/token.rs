//! Tokens: a kind from a closed set, and an optional literal payload.
use vstd::prelude::*;

use crate::text::{chars_of, is_digit, push_char, string_of};

verus! {

/// The lexical categories of the language.
#[derive(Debug, Clone, Copy, PartialEq, Eq, Structural)]
pub enum TokenKind {
    LeftParen,
    RightParen,
    LeftBrace,
    RightBrace,
    Comma,
    Dot,
    Minus,
    Plus,
    Semicolon,
    Star,
    Slash,
    Bang,
    BangEqual,
    Equal,
    EqualEqual,
    Greater,
    GreaterEqual,
    Less,
    LessEqual,
    Identifier,
    String,
    Number,
    And,
    Class,
    Else,
    False,
    Fun,
    For,
    If,
    Nil,
    Or,
    Print,
    Return,
    Super,
    This,
    True,
    Var,
    While,
    EoF,
}

/// The text by which a kind is shown.
pub open spec fn kind_text(kind: TokenKind) -> Seq<char> {
    match kind {
        TokenKind::LeftParen => "("@,
        TokenKind::RightParen => ")"@,
        TokenKind::LeftBrace => "{"@,
        TokenKind::RightBrace => "}"@,
        TokenKind::Comma => ","@,
        TokenKind::Dot => "."@,
        TokenKind::Minus => "-"@,
        TokenKind::Plus => "+"@,
        TokenKind::Semicolon => ";"@,
        TokenKind::Star => "*"@,
        TokenKind::Slash => "/"@,
        TokenKind::Bang => "!"@,
        TokenKind::BangEqual => "!="@,
        TokenKind::Equal => "="@,
        TokenKind::EqualEqual => "=="@,
        TokenKind::Greater => ">"@,
        TokenKind::GreaterEqual => ">="@,
        TokenKind::Less => "<"@,
        TokenKind::LessEqual => "<="@,
        TokenKind::Identifier => "identifier"@,
        TokenKind::String => "string"@,
        TokenKind::Number => "number"@,
        TokenKind::And => "and"@,
        TokenKind::Class => "class"@,
        TokenKind::Else => "else"@,
        TokenKind::False => "false"@,
        TokenKind::Fun => "fun"@,
        TokenKind::For => "for"@,
        TokenKind::If => "if"@,
        TokenKind::Nil => "nil"@,
        TokenKind::Or => "or"@,
        TokenKind::Print => "print"@,
        TokenKind::Return => "return"@,
        TokenKind::Super => "super"@,
        TokenKind::This => "this"@,
        TokenKind::True => "true"@,
        TokenKind::Var => "var"@,
        TokenKind::While => "while"@,
        TokenKind::EoF => "EOF"@,
    }
}

impl TokenKind {
    /// Whether tokens of this kind carry a text payload.
    pub open spec fn carries_text(self) -> bool {
        self == TokenKind::Identifier || self == TokenKind::String
    }

    /// Whether tokens of this kind carry a payload at all.
    pub open spec fn carries_payload(self) -> bool {
        self.carries_text() || self == TokenKind::Number
    }

    /// The text by which this kind is shown.
    pub fn text(&self) -> (r: &'static str)
        ensures
            r@ == kind_text(*self),
    {
        match self {
            TokenKind::LeftParen => "(",
            TokenKind::RightParen => ")",
            TokenKind::LeftBrace => "{",
            TokenKind::RightBrace => "}",
            TokenKind::Comma => ",",
            TokenKind::Dot => ".",
            TokenKind::Minus => "-",
            TokenKind::Plus => "+",
            TokenKind::Semicolon => ";",
            TokenKind::Star => "*",
            TokenKind::Slash => "/",
            TokenKind::Bang => "!",
            TokenKind::BangEqual => "!=",
            TokenKind::Equal => "=",
            TokenKind::EqualEqual => "==",
            TokenKind::Greater => ">",
            TokenKind::GreaterEqual => ">=",
            TokenKind::Less => "<",
            TokenKind::LessEqual => "<=",
            TokenKind::Identifier => "identifier",
            TokenKind::String => "string",
            TokenKind::Number => "number",
            TokenKind::And => "and",
            TokenKind::Class => "class",
            TokenKind::Else => "else",
            TokenKind::False => "false",
            TokenKind::Fun => "fun",
            TokenKind::For => "for",
            TokenKind::If => "if",
            TokenKind::Nil => "nil",
            TokenKind::Or => "or",
            TokenKind::Print => "print",
            TokenKind::Return => "return",
            TokenKind::Super => "super",
            TokenKind::This => "this",
            TokenKind::True => "true",
            TokenKind::Var => "var",
            TokenKind::While => "while",
            TokenKind::EoF => "EOF",
        }
    }
}

/// Whether `s` is a run of decimal digits, optionally followed by a dot and a
/// second run of decimal digits: the shape of a number literal.
pub open spec fn is_decimal_text(s: Seq<char>) -> bool {
    let k = digit_prefix(s, 0);
    &&& k > 0
    &&& (k == s.len() || (s[k] == '.' && k + 1 < s.len() && digit_prefix(s, k + 1) == s.len()))
}

/// The end of the run of decimal digits in `s` that starts at `i`.
pub open spec fn digit_prefix(s: Seq<char>, i: int) -> int
    decreases s.len() - i,
{
    if 0 <= i < s.len() && is_digit(s[i]) {
        digit_prefix(s, i + 1)
    } else {
        i
    }
}

/// Facts on where a run of digits ends.
pub proof fn lemma_digit_prefix(s: Seq<char>, i: int)
    requires
        0 <= i <= s.len(),
    ensures
        i <= digit_prefix(s, i) <= s.len(),
        forall|j: int| i <= j < digit_prefix(s, i) ==> is_digit(#[trigger] s[j]),
        digit_prefix(s, i) < s.len() ==> !is_digit(s[digit_prefix(s, i)]),
    decreases s.len() - i,
{
    if i < s.len() && is_digit(s[i]) {
        lemma_digit_prefix(s, i + 1);
    }
}

/// The end of the zeros that lead the run `s[i..k]`, keeping its last digit.
pub open spec fn leading_zeros_end(s: Seq<char>, i: int, k: int) -> int
    decreases k - i,
{
    if 0 <= i && i + 1 < k && k <= s.len() && s[i] == '0' {
        leading_zeros_end(s, i + 1, k)
    } else {
        i
    }
}

/// The start of the zeros that trail the run `s[lo..j]`.
pub open spec fn trailing_zeros_start(s: Seq<char>, j: int, lo: int) -> int
    decreases j - lo,
{
    if 0 <= lo < j && j <= s.len() && s[j - 1] == '0' {
        trailing_zeros_start(s, j - 1, lo)
    } else {
        j
    }
}

/// The shortest text of the value of decimal text `s`: no leading zeros
/// before the units digit, no trailing zeros after the dot, and no dot where
/// no fraction remains.
pub open spec fn number_text(s: Seq<char>) -> Seq<char> {
    let k = digit_prefix(s, 0);
    let whole = s.subrange(leading_zeros_end(s, 0, k), k);
    let e = trailing_zeros_start(s, s.len() as int, k + 1);
    if k + 1 < s.len() && k + 1 < e {
        whole + seq!['.'] + s.subrange(k + 1, e)
    } else {
        whole
    }
}

/// A number literal, held exactly as the decimal text that denotes it.
#[derive(Debug, Clone, PartialEq)]
pub struct Decimal {
    text: String,
}

impl View for Decimal {
    type V = Seq<char>;

    closed spec fn view(&self) -> Seq<char> {
        self.text@
    }
}

impl Decimal {
    /// Well formed: the text has the shape of a number literal.
    pub open spec fn wf(&self) -> bool {
        is_decimal_text(self@)
    }

    /// The decimal for `chars[start..end]`; `None` where that text does not
    /// have the shape of a number literal.
    pub(crate) fn from_chars(chars: &Vec<char>, start: usize, end: usize) -> (r: Option<Decimal>)
        requires
            start <= end <= chars@.len(),
        ensures
            r is Some <==> is_decimal_text(chars@.subrange(start as int, end as int)),
            r matches Some(d) ==> d@ == chars@.subrange(start as int, end as int) && d.wf(),
    {
        let text = string_of(chars, start, end);
        let sub = chars_of(text.as_str());
        let n = sub.len();
        let k = scan_digits(&sub, 0);
        proof {
            lemma_digit_prefix(sub@, 0);
        }
        if k == 0 {
            return None;
        }
        if k < n {
            if sub[k] != '.' || k + 1 >= n {
                return None;
            }
            let m = scan_digits(&sub, k + 1);
            if m != n {
                return None;
            }
        }
        Some(Decimal { text })
    }

    /// Reads a decimal from its text; `None` where the text does not have the
    /// shape of a number literal.
    pub fn parse(text: &str) -> (r: Option<Decimal>)
        ensures
            r is Some <==> is_decimal_text(text@),
            r matches Some(d) ==> d@ == text@ && d.wf(),
    {
        let chars = chars_of(text);
        proof {
            assert(chars@.subrange(0, chars@.len() as int) =~= chars@);
        }
        Decimal::from_chars(&chars, 0, chars.len())
    }

    /// The value written in its shortest form: `7.5` for `007.50`, `1` for
    /// `1.0`.
    pub fn display_text(&self) -> (r: String)
        ensures
            r@ == number_text(self@),
    {
        let chars = chars_of(self.text.as_str());
        let ghost s = chars@;
        let n = chars.len();
        let k = scan_digits(&chars, 0);
        proof {
            lemma_digit_prefix(s, 0);
        }
        let mut a: usize = 0;
        while k > 0 && a < k - 1 && chars[a] == '0'
            invariant
                chars@ == s,
                k <= n == s.len(),
                a < k || a == 0,
                leading_zeros_end(s, a as int, k as int) == leading_zeros_end(s, 0, k as int),
            decreases k - a,
        {
            a = a + 1;
        }
        let mut out = string_of(&chars, a, k);
        let mut e: usize = n;
        while e > k && e - k >= 2 && chars[e - 1] == '0'
            invariant
                chars@ == s,
                k <= n == s.len(),
                e <= n,
                trailing_zeros_start(s, e as int, k + 1) == trailing_zeros_start(
                    s,
                    n as int,
                    k + 1,
                ),
            decreases e,
        {
            e = e - 1;
        }
        if n > k && n - k >= 2 && e > k && e - k >= 2 {
            push_char(&mut out, '.');
            let fraction = string_of(&chars, k + 1, e);
            out.append(fraction.as_str());
        }
        out
    }

    /// The decimal text.
    pub fn text(&self) -> (r: String)
        ensures
            r@ == self@,
    {
        self.text.clone()
    }
}

/// The end of the run of decimal digits in `chars` that starts at `i`.
pub(crate) fn scan_digits(chars: &Vec<char>, i: usize) -> (r: usize)
    requires
        i <= chars@.len(),
    ensures
        r == digit_prefix(chars@, i as int),
{
    let mut j = i;
    while j < chars.len() && '0' <= chars[j] && chars[j] <= '9'
        invariant
            i <= j <= chars@.len(),
            digit_prefix(chars@, j as int) == digit_prefix(chars@, i as int),
        decreases chars@.len() - j,
    {
        j = j + 1;
    }
    j
}

/// The payload of a literal token.
#[derive(Debug, Clone, PartialEq)]
pub enum TokenValue {
    String(String),
    Number(Decimal),
}

impl TokenValue {
    /// How the payload is shown: text in double quotes, a number in its
    /// shortest form.
    pub fn display_text(&self) -> (r: String)
        ensures
            r@ == value_text(*self),
    {
        match self {
            TokenValue::String(s) => {
                let mut out = String::new();
                push_char(&mut out, '"');
                out.append(s.as_str());
                push_char(&mut out, '"');
                out
            },
            TokenValue::Number(d) => d.display_text(),
        }
    }
}

/// How a payload is shown.
pub open spec fn value_text(v: TokenValue) -> Seq<char> {
    match v {
        TokenValue::String(s) => seq!['"'] + s@ + seq!['"'],
        TokenValue::Number(d) => number_text(d@),
    }
}

/// How a token is shown: its kind, then its payload in parentheses.
pub open spec fn token_text(t: Token) -> Seq<char> {
    match t.value {
        None => kind_text(t.kind),
        Some(v) => kind_text(t.kind) + seq!['('] + value_text(v) + seq![')'],
    }
}

/// The payload of a token as plain values.
pub enum ValueView {
    Text(Seq<char>),
    Number(Seq<char>),
}

/// A token as plain values.
pub struct TokenView {
    pub kind: TokenKind,
    pub value: Option<ValueView>,
}

/// A token: its kind, and the payload of an identifier, string or number.
#[derive(Debug, Clone, PartialEq)]
pub struct Token {
    pub kind: TokenKind,
    pub value: Option<TokenValue>,
}

impl Token {
    /// Well formed: identifiers and strings carry text, numbers carry a well
    /// formed decimal, and every other kind carries nothing.
    pub open spec fn wf(&self) -> bool {
        if self.kind.carries_text() {
            self.value matches Some(TokenValue::String(_))
        } else if self.kind == TokenKind::Number {
            self.value matches Some(TokenValue::Number(d)) && d.wf()
        } else {
            self.value is None
        }
    }

    /// A token of a kind that carries no payload.
    pub fn bare(kind: TokenKind) -> (r: Token)
        requires
            !kind.carries_payload(),
        ensures
            r.kind == kind,
            r.value is None,
            r.wf(),
    {
        Token { kind, value: None }
    }

    /// An identifier or string token that carries `text`.
    pub fn from_text(kind: TokenKind, text: String) -> (r: Token)
        requires
            kind.carries_text(),
        ensures
            r.kind == kind,
            r.value == Some(TokenValue::String(text)),
            r.wf(),
    {
        Token { kind, value: Some(TokenValue::String(text)) }
    }

    /// A number token that carries `value`.
    pub fn from_number(value: Decimal) -> (r: Token)
        requires
            value.wf(),
        ensures
            r.kind == TokenKind::Number,
            r.value == Some(TokenValue::Number(value)),
            r.wf(),
    {
        Token { kind: TokenKind::Number, value: Some(TokenValue::Number(value)) }
    }

    /// The token as plain values.
    pub open spec fn view(&self) -> TokenView {
        TokenView {
            kind: self.kind,
            value: match self.value {
                None => None,
                Some(TokenValue::String(s)) => Some(ValueView::Text(s@)),
                Some(TokenValue::Number(d)) => Some(ValueView::Number(d@)),
            },
        }
    }

    /// How the token is shown: its kind, then its payload in parentheses.
    pub fn display_text(&self) -> (r: String)
        ensures
            r@ == token_text(*self),
    {
        let mut out = String::from_str(self.kind.text());
        match &self.value {
            None => {},
            Some(value) => {
                push_char(&mut out, '(');
                let shown = value.display_text();
                out.append(shown.as_str());
                push_char(&mut out, ')');
            },
        }
        out
    }

    /// A copy of this token.
    pub fn duplicate(&self) -> (r: Token)
        ensures
            r == *self,
    {
        let value = match &self.value {
            None => None,
            Some(TokenValue::String(s)) => Some(TokenValue::String(s.clone())),
            Some(TokenValue::Number(d)) => Some(TokenValue::Number(Decimal { text: d.text.clone() })),
        };
        Token { kind: self.kind, value }
    }
}

} // verus!
