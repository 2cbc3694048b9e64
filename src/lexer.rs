//! The lexer: one pass over the source, left to right, with up to two
//! characters of lookahead. Errors are reported in place and do not stop the
//! scan; the result always ends with an end-of-input token.
use vstd::prelude::*;

use crate::text::{
    chars_of, continues_word, decimal_of, is_alphabetic, is_alphanumeric, is_digit, nat_text,
    push_char, starts_word, string_of,
};
use crate::token::{
    digit_prefix, lemma_digit_prefix, is_decimal_text, Decimal, Token, TokenKind, TokenView, ValueView,
};

verus! {

/// A lexical error, with the line on which it was found.
#[derive(Debug, Clone, PartialEq, Eq)]
pub enum LexerError {
    UnexpectedChar(char, usize),
    UnterminatedString(String, usize),
    InvalidNumber(String, usize),
}

/// A lexical error as plain values.
pub enum LexErrorView {
    UnexpectedChar(char, int),
    UnterminatedString(Seq<char>, int),
    InvalidNumber(Seq<char>, int),
}

impl LexerError {
    /// The error as plain values.
    pub open spec fn view(&self) -> LexErrorView {
        match *self {
            LexerError::UnexpectedChar(c, line) => LexErrorView::UnexpectedChar(c, line as int),
            LexerError::UnterminatedString(s, line) => LexErrorView::UnterminatedString(
                s@,
                line as int,
            ),
            LexerError::InvalidNumber(s, line) => LexErrorView::InvalidNumber(s@, line as int),
        }
    }
}

/// The message that reports a lexical error.
pub open spec fn lexer_error_text(e: LexerError) -> Seq<char> {
    match e {
        LexerError::UnexpectedChar(c, line) => "Line "@ + nat_text(line as nat)
            + ": Unexpected character: '"@ + seq![c] + seq!['\''],
        LexerError::UnterminatedString(s, line) => "Line "@ + nat_text(line as nat)
            + ": Unterminated string: '"@ + s@ + seq!['\''],
        LexerError::InvalidNumber(s, line) => "Line "@ + nat_text(line as nat)
            + ": Invalid number: '"@ + s@ + seq!['\''],
    }
}

impl LexerError {
    /// The message that reports this error, with its line.
    pub fn message(&self) -> (r: String)
        ensures
            r@ == lexer_error_text(*self),
    {
        let mut out = String::from_str("Line ");
        match self {
            LexerError::UnexpectedChar(c, line) => {
                let n = decimal_of(*line);
                out.append(n.as_str());
                out.append(": Unexpected character: '");
                push_char(&mut out, *c);
            },
            LexerError::UnterminatedString(s, line) => {
                let n = decimal_of(*line);
                out.append(n.as_str());
                out.append(": Unterminated string: '");
                out.append(s.as_str());
            },
            LexerError::InvalidNumber(s, line) => {
                let n = decimal_of(*line);
                out.append(n.as_str());
                out.append(": Invalid number: '");
                out.append(s.as_str());
            },
        }
        push_char(&mut out, '\'');
        out
    }
}

/// One element of the lexer's output, as plain values.
pub type LexItem = Result<TokenView, LexErrorView>;

/// One element of the lexer's output as plain values.
pub open spec fn item_view(r: Result<Token, LexerError>) -> LexItem {
    match r {
        Ok(t) => Ok(t.view()),
        Err(e) => Err(e.view()),
    }
}

/// The lexer's output as plain values.
pub open spec fn lexed(r: Seq<Result<Token, LexerError>>) -> Seq<LexItem> {
    r.map_values(|x: Result<Token, LexerError>| item_view(x))
}

/// The line on which position `pos` of `src` lies: one more than the number of
/// newlines before it.
pub open spec fn line_at(src: Seq<char>, pos: int) -> int
    decreases pos,
{
    if pos <= 0 {
        1
    } else {
        line_at(src, pos - 1) + if src[pos - 1] == '\n' {
            1int
        } else {
            0int
        }
    }
}

/// The first position at or after `i` that holds a newline, or the end.
pub open spec fn comment_end(src: Seq<char>, i: int) -> int
    decreases src.len() - i,
{
    if 0 <= i < src.len() && src[i] != '\n' {
        comment_end(src, i + 1)
    } else {
        i
    }
}

/// The first position at or after `i` that holds a double quote, or the end.
pub open spec fn string_end(src: Seq<char>, i: int) -> int
    decreases src.len() - i,
{
    if 0 <= i < src.len() && src[i] != '"' {
        string_end(src, i + 1)
    } else {
        i
    }
}

/// The end of the run of word characters that starts at `i`.
pub open spec fn word_end(src: Seq<char>, i: int) -> int
    decreases src.len() - i,
{
    if 0 <= i < src.len() && continues_word(src[i]) {
        word_end(src, i + 1)
    } else {
        i
    }
}

/// The end of the number literal that starts at `i`: a run of digits, then a
/// dot and a second run only where a digit follows the dot.
pub open spec fn number_end(src: Seq<char>, i: int) -> int {
    let k = digit_prefix(src, i);
    if k + 1 < src.len() && src[k] == '.' && is_digit(src[k + 1]) {
        digit_prefix(src, k + 1)
    } else {
        k
    }
}

/// The reserved word that `w` spells, if any.
pub open spec fn keyword(w: Seq<char>) -> Option<TokenKind> {
    if w == "and"@ {
        Some(TokenKind::And)
    } else if w == "class"@ {
        Some(TokenKind::Class)
    } else if w == "else"@ {
        Some(TokenKind::Else)
    } else if w == "false"@ {
        Some(TokenKind::False)
    } else if w == "for"@ {
        Some(TokenKind::For)
    } else if w == "fun"@ {
        Some(TokenKind::Fun)
    } else if w == "if"@ {
        Some(TokenKind::If)
    } else if w == "nil"@ {
        Some(TokenKind::Nil)
    } else if w == "or"@ {
        Some(TokenKind::Or)
    } else if w == "print"@ {
        Some(TokenKind::Print)
    } else if w == "return"@ {
        Some(TokenKind::Return)
    } else if w == "super"@ {
        Some(TokenKind::Super)
    } else if w == "this"@ {
        Some(TokenKind::This)
    } else if w == "true"@ {
        Some(TokenKind::True)
    } else if w == "var"@ {
        Some(TokenKind::Var)
    } else if w == "while"@ {
        Some(TokenKind::While)
    } else {
        None
    }
}

/// A token without payload, as plain values.
pub open spec fn bare_view(kind: TokenKind) -> LexItem {
    Ok(TokenView { kind, value: None })
}

/// The kind of a one-character token.
pub open spec fn single_kind(c: char) -> Option<TokenKind> {
    match c {
        '(' => Some(TokenKind::LeftParen),
        ')' => Some(TokenKind::RightParen),
        '{' => Some(TokenKind::LeftBrace),
        '}' => Some(TokenKind::RightBrace),
        ',' => Some(TokenKind::Comma),
        '.' => Some(TokenKind::Dot),
        '-' => Some(TokenKind::Minus),
        '+' => Some(TokenKind::Plus),
        ';' => Some(TokenKind::Semicolon),
        '*' => Some(TokenKind::Star),
        _ => None,
    }
}

/// For an operator that may be followed by `=`: the kinds without and with it.
pub open spec fn operator_kinds(c: char) -> Option<(TokenKind, TokenKind)> {
    match c {
        '!' => Some((TokenKind::Bang, TokenKind::BangEqual)),
        '=' => Some((TokenKind::Equal, TokenKind::EqualEqual)),
        '<' => Some((TokenKind::Less, TokenKind::LessEqual)),
        '>' => Some((TokenKind::Greater, TokenKind::GreaterEqual)),
        _ => None,
    }
}

/// The string literal whose opening quote is at `pos`, and the position after
/// its closing quote; an error where no quote closes it.
pub open spec fn string_item(src: Seq<char>, pos: int) -> (Option<LexItem>, int) {
    let end = string_end(src, pos + 1);
    if end >= src.len() {
        (
            Some(
                Err(
                    LexErrorView::UnterminatedString(
                        src.subrange(pos + 1, src.len() as int),
                        line_at(src, pos),
                    ),
                ),
            ),
            src.len() as int,
        )
    } else {
        (
            Some(
                Ok(
                    TokenView {
                        kind: TokenKind::String,
                        value: Some(ValueView::Text(src.subrange(pos + 1, end))),
                    },
                ),
            ),
            end + 1,
        )
    }
}

/// The number literal that starts at `pos`, and the position after it.
pub open spec fn number_item(src: Seq<char>, pos: int) -> (Option<LexItem>, int) {
    let end = number_end(src, pos);
    let text = src.subrange(pos, end);
    if is_decimal_text(text) {
        (
            Some(Ok(TokenView { kind: TokenKind::Number, value: Some(ValueView::Number(text)) })),
            end,
        )
    } else {
        (Some(Err(LexErrorView::InvalidNumber(text, line_at(src, pos)))), end)
    }
}

/// The reserved word or identifier that starts at `pos`, and the position
/// after it.
pub open spec fn word_item(src: Seq<char>, pos: int) -> (Option<LexItem>, int) {
    let end = word_end(src, pos + 1);
    let word = src.subrange(pos, end);
    match keyword(word) {
        Some(kind) => (Some(bare_view(kind)), end),
        None => (
            Some(Ok(TokenView { kind: TokenKind::Identifier, value: Some(ValueView::Text(word)) })),
            end,
        ),
    }
}

/// What the lexer makes of the source from position `pos` on, where `pos`
/// holds a character: the element it outputs, if any, and where it goes on.
pub open spec fn scan_one(src: Seq<char>, pos: int) -> (Option<LexItem>, int) {
    let c = src[pos];
    let line = line_at(src, pos);
    let has_next = pos + 1 < src.len();
    if single_kind(c) is Some {
        (Some(bare_view(single_kind(c)->0)), pos + 1)
    } else if operator_kinds(c) is Some {
        let (one, two) = operator_kinds(c)->0;
        if has_next && src[pos + 1] == '=' {
            (Some(bare_view(two)), pos + 2)
        } else {
            (Some(bare_view(one)), pos + 1)
        }
    } else if c == '/' {
        if has_next && src[pos + 1] == '/' {
            (None, comment_end(src, pos + 1))
        } else {
            (Some(bare_view(TokenKind::Slash)), pos + 1)
        }
    } else if c == ' ' || c == '\t' || c == '\r' || c == '\n' {
        (None, pos + 1)
    } else if c == '"' {
        string_item(src, pos)
    } else if is_digit(c) {
        number_item(src, pos)
    } else if starts_word(c) {
        word_item(src, pos)
    } else {
        (Some(Err(LexErrorView::UnexpectedChar(c, line))), pos + 1)
    }
}

/// The lexer's output for the source from position `pos` on.
pub open spec fn lex_from(src: Seq<char>, pos: int) -> Seq<LexItem>
    decreases src.len() - pos,
{
    if pos < 0 || pos >= src.len() {
        seq![bare_view(TokenKind::EoF)]
    } else {
        if !(pos < scan_one(src, pos).1 <= src.len()) {
            seq![]
        } else {
            match scan_one(src, pos).0 {
                Some(x) => seq![x] + lex_from(src, scan_one(src, pos).1),
                None => lex_from(src, scan_one(src, pos).1),
            }
        }
    }
}

/// The lexer's output for the whole of `src`.
pub open spec fn lex(src: Seq<char>) -> Seq<LexItem> {
    lex_from(src, 0)
}

/// Each newline adds at most one line.
pub proof fn lemma_line_at_bound(src: Seq<char>, pos: int)
    requires
        0 <= pos <= src.len(),
    ensures
        1 <= line_at(src, pos) <= pos + 1,
    decreases pos,
{
    if pos > 0 {
        lemma_line_at_bound(src, pos - 1);
    }
}

/// An optional element of the lexer's output as plain values.
pub open spec fn option_view(r: Option<Result<Token, LexerError>>) -> Option<LexItem> {
    match r {
        None => None,
        Some(x) => Some(item_view(x)),
    }
}

/// A scanner over the characters of a source text.
pub struct Lexer {
    source: Vec<char>,
    position: usize,
    line_count: usize,
}

impl Lexer {
    /// The characters being scanned.
    pub closed spec fn source(&self) -> Seq<char> {
        self.source@
    }

    /// The position of the next character to scan.
    pub closed spec fn position(&self) -> int {
        self.position as int
    }

    /// Well formed: the position lies within the source, and the line counter
    /// is the line of the position.
    pub closed spec fn wf(&self) -> bool {
        &&& self.position <= self.source@.len()
        &&& self.source@.len() < usize::MAX
        &&& self.line_count == line_at(self.source@, self.position as int)
    }

    /// A lexer at the start of `source`.
    pub fn new(source: String) -> (r: Lexer)
        requires
            source@.len() < usize::MAX,
        ensures
            r.wf(),
            r.source() == source@,
            r.position() == 0,
    {
        Lexer { source: chars_of(source.as_str()), position: 0, line_count: 1 }
    }

    /// The next character, without consuming it.
    fn peek(&self) -> (r: Option<char>)
        ensures
            r == if self.position < self.source@.len() {
                Some(self.source@[self.position as int])
            } else {
                None::<char>
            },
    {
        if self.position < self.source.len() {
            Some(self.source[self.position])
        } else {
            None
        }
    }

    /// The two characters after the position, without consuming them.
    fn peek_two(&self) -> (r: Option<(char, char)>)
        ensures
            r == if self.position + 1 < self.source@.len() {
                Some(
                    (
                        self.source@[self.position as int],
                        self.source@[self.position + 1],
                    ),
                )
            } else {
                None::<(char, char)>
            },
    {
        if self.position < self.source.len() && self.position + 1 < self.source.len() {
            Some((self.source[self.position], self.source[self.position + 1]))
        } else {
            None
        }
    }

    /// Consumes the next character, counting the line it ends.
    fn next(&mut self) -> (r: Option<char>)
        requires
            old(self).wf(),
        ensures
            final(self).wf(),
            final(self).source@ == old(self).source@,
            r == if old(self).position < old(self).source@.len() {
                Some(old(self).source@[old(self).position as int])
            } else {
                None::<char>
            },
            final(self).position == if old(self).position < old(self).source@.len() {
                old(self).position + 1
            } else {
                old(self).position as int
            },
    {
        if self.position < self.source.len() {
            let c = self.source[self.position];
            proof {
                lemma_line_at_bound(self.source@, self.position + 1);
            }
            if c == '\n' {
                self.line_count = self.line_count + 1;
            }
            self.position = self.position + 1;
            Some(c)
        } else {
            None
        }
    }

    /// Scans the whole source from the position on: every token and every
    /// error in order, then an end-of-input token.
    pub fn scan_tokens(&mut self) -> (r: Vec<Result<Token, LexerError>>)
        requires
            old(self).wf(),
        ensures
            final(self).wf(),
            final(self).source() == old(self).source(),
            final(self).position() == old(self).source().len(),
            lexed(r@) == lex_from(old(self).source(), old(self).position()),
    {
        let mut tokens: Vec<Result<Token, LexerError>> = Vec::new();
        let ghost src = self.source@;
        let ghost start = self.position as int;
        assert(lexed(tokens@) + lex_from(src, start) =~= lex_from(src, start));
        loop
            invariant
                self.wf(),
                self.source@ == src,
                lexed(tokens@) + lex_from(src, self.position as int) == lex_from(src, start),
            ensures
                self.wf(),
                self.source@ == src,
                self.position == src.len(),
                lexed(tokens@) + lex_from(src, self.position as int) == lex_from(src, start),
            decreases src.len() - self.position,
        {
            let ghost pos = self.position as int;
            let ghost before = tokens@;
            match self.next() {
                None => break,
                Some(c) => {
                    let item = self.scan_after(c);
                    let ghost next = self.position as int;
                    assert(scan_one(src, pos) == (option_view(item), next));
                    match item {
                        Some(x) => {
                            tokens.push(x);
                            assert(lexed(tokens@) =~= lexed(before).push(item_view(x)));
                            assert(lex_from(src, pos) == seq![item_view(x)] + lex_from(src, next));
                            assert(lexed(tokens@) + lex_from(src, next) =~= lexed(before)
                                + lex_from(src, pos));
                        },
                        None => {},
                    }
                },
            }
        }
        tokens.push(Ok(Token::bare(TokenKind::EoF)));
        assert(lexed(tokens@) =~= lexed(tokens@.drop_last()).push(bare_view(TokenKind::EoF)));
        assert(lexed(tokens@) =~= lex_from(src, start));
        tokens
    }

    /// Handles the character `c`, just consumed: the token or error it
    /// begins, or nothing where it begins whitespace or a comment.
    fn scan_after(&mut self, c: char) -> (r: Option<Result<Token, LexerError>>)
        requires
            old(self).wf(),
            0 < old(self).position,
            old(self).source@[old(self).position - 1] == c,
        ensures
            final(self).wf(),
            final(self).source@ == old(self).source@,
            old(self).position <= final(self).position,
            (option_view(r), final(self).position as int) == scan_one(
                old(self).source@,
                old(self).position - 1,
            ),
    {
        let ghost src = self.source@;
        let ghost pos = self.position - 1;
        assert(line_at(src, pos + 1) == line_at(src, pos) + if c == '\n' {
            1int
        } else {
            0int
        });
        match c {
            '(' => Some(Ok(Token::bare(TokenKind::LeftParen))),
            ')' => Some(Ok(Token::bare(TokenKind::RightParen))),
            '{' => Some(Ok(Token::bare(TokenKind::LeftBrace))),
            '}' => Some(Ok(Token::bare(TokenKind::RightBrace))),
            ',' => Some(Ok(Token::bare(TokenKind::Comma))),
            '.' => Some(Ok(Token::bare(TokenKind::Dot))),
            '-' => Some(Ok(Token::bare(TokenKind::Minus))),
            '+' => Some(Ok(Token::bare(TokenKind::Plus))),
            ';' => Some(Ok(Token::bare(TokenKind::Semicolon))),
            '*' => Some(Ok(Token::bare(TokenKind::Star))),
            '!' => Some(Ok(self.scan_operator(TokenKind::BangEqual, TokenKind::Bang))),
            '=' => Some(Ok(self.scan_operator(TokenKind::EqualEqual, TokenKind::Equal))),
            '<' => Some(Ok(self.scan_operator(TokenKind::LessEqual, TokenKind::Less))),
            '>' => Some(Ok(self.scan_operator(TokenKind::GreaterEqual, TokenKind::Greater))),
            '/' => {
                if self.peek() == Some('/') {
                    self.scan_comment();
                    None
                } else {
                    Some(Ok(Token::bare(TokenKind::Slash)))
                }
            },
            ' ' | '\t' | '\r' | '\n' => None,
            '"' => Some(self.scan_string()),
            _ => {
                if '0' <= c && c <= '9' {
                    Some(self.scan_number())
                } else if is_alphabetic(c) || c == '_' {
                    Some(self.scan_word())
                } else {
                    Some(Err(LexerError::UnexpectedChar(c, self.line_count)))
                }
            },
        }
    }

    /// An operator that may take a following `=`: `two` where it does, else
    /// `one`.
    fn scan_operator(&mut self, two: TokenKind, one: TokenKind) -> (r: Token)
        requires
            old(self).wf(),
            !two.carries_payload(),
            !one.carries_payload(),
        ensures
            final(self).wf(),
            final(self).source@ == old(self).source@,
            ({
                let src = old(self).source@;
                let pos = old(self).position as int;
                if pos < src.len() && src[pos] == '=' {
                    r.view() == TokenView { kind: two, value: None }
                        && final(self).position == pos + 1
                } else {
                    r.view() == TokenView { kind: one, value: None }
                        && final(self).position == pos
                }
            }),
    {
        if self.peek() == Some('=') {
            self.next();
            Token::bare(two)
        } else {
            Token::bare(one)
        }
    }

    /// Skips a line comment, up to the newline that ends it.
    fn scan_comment(&mut self)
        requires
            old(self).wf(),
        ensures
            final(self).wf(),
            final(self).source@ == old(self).source@,
            old(self).position <= final(self).position,
            final(self).position == comment_end(old(self).source@, old(self).position as int),
    {
        let ghost start = self.position as int;
        loop
            invariant
                self.wf(),
                self.source@ == old(self).source@,
                start <= self.position,
                comment_end(self.source@, self.position as int) == comment_end(self.source@, start),
            ensures
                self.wf(),
                self.source@ == old(self).source@,
                start <= self.position,
                self.position == comment_end(self.source@, start),
            decreases self.source@.len() - self.position,
        {
            match self.peek() {
                Some(c) => {
                    if c == '\n' {
                        break;
                    }
                    self.next();
                },
                None => break,
            }
        }
    }

    /// Scans a string literal whose opening quote was just consumed.
    fn scan_string(&mut self) -> (r: Result<Token, LexerError>)
        requires
            old(self).wf(),
            0 < old(self).position,
            old(self).source@[old(self).position - 1] == '"',
        ensures
            final(self).wf(),
            final(self).source@ == old(self).source@,
            old(self).position <= final(self).position,
            (Some(item_view(r)), final(self).position as int) == string_item(
                old(self).source@,
                old(self).position - 1,
            ),
    {
        let ghost src = self.source@;
        let start = self.position;
        let line = self.line_count;
        proof {
            assert(line_at(src, start - 1) == line_at(src, start as int));
        }
        loop
            invariant
                self.wf(),
                self.source@ == src,
                start <= self.position,
                string_end(src, self.position as int) == string_end(src, start as int),
            ensures
                self.wf(),
                self.source@ == src,
                start <= self.position,
                self.position == string_end(src, start as int),
            decreases src.len() - self.position,
        {
            match self.peek() {
                Some(c) => {
                    if c == '"' {
                        break;
                    }
                    self.next();
                },
                None => break,
            }
        }
        if self.position == self.source.len() {
            return Err(
                LexerError::UnterminatedString(
                    string_of(&self.source, start, self.source.len()),
                    line,
                ),
            );
        }
        self.next();
        Ok(Token::from_text(TokenKind::String, string_of(&self.source, start, self.position - 1)))
    }

    /// Scans a number literal whose first digit was just consumed.
    fn scan_number(&mut self) -> (r: Result<Token, LexerError>)
        requires
            old(self).wf(),
            0 < old(self).position,
            is_digit(old(self).source@[old(self).position - 1]),
        ensures
            final(self).wf(),
            final(self).source@ == old(self).source@,
            old(self).position <= final(self).position,
            (Some(item_view(r)), final(self).position as int) == number_item(
                old(self).source@,
                old(self).position - 1,
            ),
    {
        let ghost src = self.source@;
        let start = self.position - 1;
        let line = self.line_count;
        proof {
            lemma_digit_prefix(src, start + 1);
        }
        self.scan_digits();
        if let Some((dot, digit)) = self.peek_two() {
            if dot == '.' && '0' <= digit && digit <= '9' {
                self.next();
                self.next();
                proof {
                    lemma_digit_prefix(src, self.position as int);
                }
                self.scan_digits();
            }
        }
        match Decimal::from_chars(&self.source, start, self.position) {
            Some(d) => Ok(Token::from_number(d)),
            None => Err(
                LexerError::InvalidNumber(
                    string_of(&self.source, start, self.position),
                    line,
                ),
            ),
        }
    }

    /// Consumes a run of decimal digits.
    fn scan_digits(&mut self)
        requires
            old(self).wf(),
        ensures
            final(self).wf(),
            final(self).source@ == old(self).source@,
            final(self).line_count == old(self).line_count,
            final(self).position == digit_prefix(old(self).source@, old(self).position as int),
    {
        let ghost start = self.position as int;
        loop
            invariant
                self.wf(),
                self.source@ == old(self).source@,
                self.line_count == old(self).line_count,
                start <= self.position,
                digit_prefix(self.source@, self.position as int) == digit_prefix(
                    self.source@,
                    start,
                ),
            ensures
                self.wf(),
                self.source@ == old(self).source@,
                self.line_count == old(self).line_count,
                self.position == digit_prefix(self.source@, start),
            decreases self.source@.len() - self.position,
        {
            match self.peek() {
                Some(c) => {
                    if !('0' <= c && c <= '9') {
                        break;
                    }
                    self.next();
                },
                None => break,
            }
        }
    }

    /// Scans an identifier or reserved word whose first character was just
    /// consumed.
    fn scan_word(&mut self) -> (r: Result<Token, LexerError>)
        requires
            old(self).wf(),
            0 < old(self).position,
            starts_word(old(self).source@[old(self).position - 1]),
        ensures
            final(self).wf(),
            final(self).source@ == old(self).source@,
            old(self).position <= final(self).position,
            (Some(item_view(r)), final(self).position as int) == word_item(
                old(self).source@,
                old(self).position - 1,
            ),
    {
        let ghost src = self.source@;
        let start = self.position - 1;
        loop
            invariant
                self.wf(),
                self.source@ == src,
                start < self.position,
                word_end(src, self.position as int) == word_end(src, start + 1),
            ensures
                self.wf(),
                self.source@ == src,
                start < self.position,
                self.position == word_end(src, start + 1),
            decreases src.len() - self.position,
        {
            match self.peek() {
                Some(c) => {
                    if !(is_alphanumeric(c) || c == '_') {
                        break;
                    }
                    self.next();
                },
                None => break,
            }
        }
        match keyword_of(&self.source, start, self.position) {
            Some(kind) => Ok(Token::bare(kind)),
            None => Ok(
                Token::from_text(
                    TokenKind::Identifier,
                    string_of(&self.source, start, self.position),
                ),
            ),
        }
    }
}

/// Whether `chars[start..end]` spells `word`.
fn spells(chars: &Vec<char>, start: usize, end: usize, word: &str) -> (r: bool)
    requires
        start <= end <= chars@.len(),
    ensures
        r == (chars@.subrange(start as int, end as int) == word@),
{
    let n = word.unicode_len();
    if end - start != n {
        return false;
    }
    let mut i: usize = 0;
    while i < n
        invariant
            n == word@.len(),
            end - start == n,
            start <= end <= chars@.len(),
            i <= n,
            forall|j: int| 0 <= j < i ==> chars@[start + j] == word@[j],
        decreases n - i,
    {
        if chars[start + i] != word.get_char(i) {
            assert(chars@.subrange(start as int, end as int)[i as int] != word@[i as int]);
            return false;
        }
        i = i + 1;
    }
    assert(chars@.subrange(start as int, end as int) =~= word@);
    true
}

/// The reserved word that `chars[start..end]` spells, if any.
fn keyword_of(chars: &Vec<char>, start: usize, end: usize) -> (r: Option<TokenKind>)
    requires
        start <= end <= chars@.len(),
    ensures
        r == keyword(chars@.subrange(start as int, end as int)),
{
    if spells(chars, start, end, "and") {
        Some(TokenKind::And)
    } else if spells(chars, start, end, "class") {
        Some(TokenKind::Class)
    } else if spells(chars, start, end, "else") {
        Some(TokenKind::Else)
    } else if spells(chars, start, end, "false") {
        Some(TokenKind::False)
    } else if spells(chars, start, end, "for") {
        Some(TokenKind::For)
    } else if spells(chars, start, end, "fun") {
        Some(TokenKind::Fun)
    } else if spells(chars, start, end, "if") {
        Some(TokenKind::If)
    } else if spells(chars, start, end, "nil") {
        Some(TokenKind::Nil)
    } else if spells(chars, start, end, "or") {
        Some(TokenKind::Or)
    } else if spells(chars, start, end, "print") {
        Some(TokenKind::Print)
    } else if spells(chars, start, end, "return") {
        Some(TokenKind::Return)
    } else if spells(chars, start, end, "super") {
        Some(TokenKind::Super)
    } else if spells(chars, start, end, "this") {
        Some(TokenKind::This)
    } else if spells(chars, start, end, "true") {
        Some(TokenKind::True)
    } else if spells(chars, start, end, "var") {
        Some(TokenKind::Var)
    } else if spells(chars, start, end, "while") {
        Some(TokenKind::While)
    } else {
        None
    }
}

/// A token view is well formed: identifiers and strings carry text, numbers
/// carry decimal text, and every other kind carries nothing.
pub open spec fn view_wf(tv: TokenView) -> bool {
    if tv.kind.carries_text() {
        tv.value matches Some(ValueView::Text(_))
    } else if tv.kind == TokenKind::Number {
        tv.value matches Some(ValueView::Number(s)) && is_decimal_text(s)
    } else {
        tv.value is None
    }
}

/// An element of the lexer's output is sound: a well formed token, or an
/// error other than an invalid number.
pub open spec fn item_sound(x: LexItem) -> bool {
    match x {
        Ok(tv) => view_wf(tv),
        Err(e) => !(e is InvalidNumber),
    }
}

proof fn lemma_digit_prefix_sub(src: Seq<char>, a: int, b: int, i: int)
    requires
        0 <= a <= i <= b <= src.len(),
        digit_prefix(src, i) <= b,
    ensures
        digit_prefix(src.subrange(a, b), i - a) == digit_prefix(src, i) - a,
    decreases b - i,
{
    lemma_digit_prefix(src, i);
    let sub = src.subrange(a, b);
    if i < b {
        assert(sub[i - a] == src[i]);
        if is_digit(src[i]) {
            lemma_digit_prefix_sub(src, a, b, i + 1);
        }
    }
}

/// A number literal always has the shape of a decimal, so the lexer never
/// reports an invalid number.
proof fn lemma_number_item(src: Seq<char>, pos: int)
    requires
        0 <= pos < src.len(),
        is_digit(src[pos]),
    ensures
        is_decimal_text(src.subrange(pos, number_end(src, pos))),
        pos < number_end(src, pos) <= src.len(),
{
    let k = digit_prefix(src, pos);
    lemma_digit_prefix(src, pos);
    let end = number_end(src, pos);
    if k + 1 < src.len() && src[k] == '.' && is_digit(src[k + 1]) {
        lemma_digit_prefix(src, k + 1);
        lemma_digit_prefix_sub(src, pos, end, pos);
        lemma_digit_prefix_sub(src, pos, end, k + 1);
    } else {
        lemma_digit_prefix_sub(src, pos, end, pos);
    }
}

proof fn lemma_scan_one_sound(src: Seq<char>, pos: int)
    requires
        0 <= pos < src.len(),
    ensures
        scan_one(src, pos).0 matches Some(x) ==> item_sound(x),
{
    if is_digit(src[pos]) {
        lemma_number_item(src, pos);
    }
}

/// The lexer's output is never empty and always ends with an end-of-input
/// token; every token in it is well formed, and no invalid number is ever
/// reported.
pub proof fn lemma_lex_sound(src: Seq<char>, pos: int)
    ensures
        lex_from(src, pos).len() >= 1,
        lex_from(src, pos).last() == bare_view(TokenKind::EoF),
        forall|i: int| 0 <= i < lex_from(src, pos).len() ==> item_sound(#[trigger] lex_from(src, pos)[i]),
    decreases src.len() - pos,
{
    if 0 <= pos < src.len() {
        let next = scan_one(src, pos).1;
        if pos < next <= src.len() {
            lemma_lex_sound(src, next);
            lemma_scan_one_sound(src, pos);
            let rest = lex_from(src, next);
            match scan_one(src, pos).0 {
                Some(x) => {
                    assert(lex_from(src, pos) == seq![x] + rest);
                    assert forall|i: int| 0 <= i < lex_from(src, pos).len() implies item_sound(
                        #[trigger] lex_from(src, pos)[i],
                    ) by {
                        if i > 0 {
                            assert(lex_from(src, pos)[i] == rest[i - 1]);
                        }
                    }
                },
                None => {},
            }
        } else {
            assert(false) by {
                lemma_scan_one_advances(src, pos);
            }
        }
    } else {
        assert(item_sound(bare_view(TokenKind::EoF)));
    }
}

proof fn lemma_scan_one_advances(src: Seq<char>, pos: int)
    requires
        0 <= pos < src.len(),
    ensures
        pos < scan_one(src, pos).1 <= src.len(),
{
    let c = src[pos];
    if single_kind(c) is Some || operator_kinds(c) is Some {
    } else if c == '/' {
        if pos + 1 < src.len() && src[pos + 1] == '/' {
            lemma_comment_end(src, pos + 1);
        }
    } else if c == ' ' || c == '\t' || c == '\r' || c == '\n' {
    } else if c == '"' {
        lemma_string_end(src, pos + 1);
    } else if is_digit(c) {
        lemma_number_item(src, pos);
    } else if starts_word(c) {
        lemma_word_end(src, pos + 1);
    }
}

proof fn lemma_comment_end(src: Seq<char>, i: int)
    requires
        0 <= i <= src.len(),
    ensures
        i <= comment_end(src, i) <= src.len(),
    decreases src.len() - i,
{
    if i < src.len() && src[i] != '\n' {
        lemma_comment_end(src, i + 1);
    }
}

proof fn lemma_string_end(src: Seq<char>, i: int)
    requires
        0 <= i <= src.len(),
    ensures
        i <= string_end(src, i) <= src.len(),
    decreases src.len() - i,
{
    if i < src.len() && src[i] != '"' {
        lemma_string_end(src, i + 1);
    }
}

proof fn lemma_word_end(src: Seq<char>, i: int)
    requires
        0 <= i <= src.len(),
    ensures
        i <= word_end(src, i) <= src.len(),
    decreases src.len() - i,
{
    if i < src.len() && continues_word(src[i]) {
        lemma_word_end(src, i + 1);
    }
}

} // verus!
